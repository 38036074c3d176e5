# emulsion

The logic of the emulsion image viewer as a Verus library, with its contracts
proved: release tags and version numbers, the settings files' values, key bindings
and custom commands, the images of a folder in natural name order, the image cache
(load requests and results, eviction within a memory budget, frame lookup), and the
players that step through a folder or the frames of an animation.

- `src/` is the verified library. `image_cache/` holds the folder listing
  (`directory.rs`), the loader's bookkeeping (`pending_requests.rs`,
  `image_loader.rs`), the name order (`name_order.rs`) and the cache itself
  (`cache.rs`); `playback.rs` holds the players; `viewer.rs` what a key press,
  a click or a dragged file asks the picture view to do; `gui.rs` update timing.
- `tests/` runs the library on concrete values.
- `app/` is the program around it: the settings files, the command line, the
  loader threads that decode images, and the update loop. It has no window.
