# A verified to-do list with accounts

A command-line to-do list: users register and sign in against an account
file (`id,username,password` per line) and keep tasks in a task file
(`id,time,text,owner,status` per line).

- `src/` is the library, verified with Verus:
  - `text.rs`: white space and trimming, comma-separated columns, decimal
    numbers, padding;
  - `accounts.rs`: signing in, checking a new account, the next account
    line;
  - `tasks.rs`: the tasks of a user, the next task line, editing,
    completing and removing tasks, the task listing;
  - `menu.rs`: reading the answers to the prompts;
  - `session.rs`: the task session as a state machine, from one answer to
    the next stage and the command to carry out.
- `app/main.rs` is the program: prompts, files, and the loops that carry
  out the commands.
- `tests/` runs the library on concrete values.
