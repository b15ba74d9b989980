# elevate-pam

A PAM-compatible authentication framework whose decisions are verified
with Verus.

- `src/` is the verified library `elevate_pam`: the stack state machine
  (`dispatch`), control flags and action tables (`config`), `include`
  splicing, items, environment, module data, path resolution, the classic
  `pam.d` parser, and the decision logic of every builtin module
  (`builtin/*`: shadow and opasswd rewrites, account aging, access rules,
  tally files, limits, the steps of a password change, ...). Each public
  function states what it returns in its contract; laws that relate
  several calls are the `law_*` proof functions.
- `app/` is the process side: reading TOML and system files, the PAM
  handle, running stacks and modules, `dlopen`, syslog, and the Linux-PAM
  C ABI (`pam_*`, `pam_modutil_*`).
- `tests/` runs the library on concrete inputs.
