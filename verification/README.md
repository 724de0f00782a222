# broforce

Sets the lives of a player in a running Broforce. The game is a Unity game on the mono runtime,
so its data need not be searched for: mono can be asked where it lies.

1. A small x64 stub in the game's process asks mono for the static field
   `HeroController.players` and for the offset of `Player.lives`.
2. The array of players is read, and the player's object is recognised by its vtable.
3. Four bytes are written, and read back.

No game logic runs on a foreign thread: the game's own setter refreshes the HUD, which only its
main thread may do.

## Layout

`src/` is a library in Verus. It performs no I/O: what has to be done to the process is handed
out as requests, and the answers come back as plain values.

| module | what it holds |
| --- | --- |
| `bytes`, `text` | little-endian values; formatting, parsing and decoding of text |
| `pe` | the export table of a DLL |
| `mono` | mono.dll in a process, and the functions of it that are used |
| `x64`, `inject` | instructions and their encoding; the stub, and the lookup that runs it |
| `machine`, `execution` | a model of the processor, and what running the stub comes to |
| `remote` | requests, replies and conversations |
| `trainer` | locating a player's lives, and setting them |
| `resuming`, `protocol` | what all conversations keep to |
| `win32` | what the answers of Windows mean |
| `rows`, `log`, `app` | the log, in a model of slint, and the state behind the window |

What is proved beyond the contract of each function are the functions named `law_*`. Among them:
locating writes nothing outside the trainer's own memory; setting writes the lives and nothing
else of the game, and only into an object that was shown to be a `Player`; every block of memory is
released; success means that the lives were read back; the stub keeps the stack and the calling
convention and passes no null image, class, field or vtable on.

A player is located as the element of the array that was asked for. An array of mono has its
elements from +0x20 on, behind its length at +0x18, or from +0x18 on. It is told apart by the word
at +0x18, for the whole array: where that is not null and leads to no `Player`, it is a length, and
otherwise the first element. A null there is taken for a first element that is missing, since an
array of the other kind would have no elements at all.

`app/` is the program around it: the window, the calls into Windows, the threads.

`tests/` drives the library, among others against a simulated game.
