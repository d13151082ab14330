# AsterFiles

The rules behind a file manager for Windows: network places and their helper processes, the
integration with the Shell, dragging and dropping, copying, the recycle bin, menus, watching
folders, and the search through Everything.

- `src/` is the library. It decides and computes, on plain values, and every function of it is
  verified: paths are UTF-16 units, handles are integers, and what the system answered is an
  argument. The laws that hold across functions are public proof functions named `law_…`.
- `tests/` runs the library on concrete values.
- `app/` is the program around it: the calls into Windows, the files, the threads and the helper
  processes. The modules that speak to the Shell through COM are built on Windows only.
