# bevy_dragndrop

Drag and drop for Bevy entities, with its decisions verified by Verus.

`src/` is the verified library. It works on plain values: an entity is its
64-bit identifier, a time is a count of nanoseconds, and a depth is an integer
that orders as the depths do.

- `flags`: `InputFlags`, the pressed mouse buttons and modifier keys as six bits.
- `inputs`: the flags of what is pressed.
- `components`, `events`: `Draggable`, `Dragging`, `AwaitingDrag`, and the
  `Dropped`, `Dragged`, `DragAwait` and `HoveredChange` events.
- `start`: which entity starts being dragged (or waiting) when a button goes down.
- `awaiting`: when a waiting entity starts being dragged or stops waiting.
- `hover`: dragged entities follow the pointer and note the receiver under it.
- `release`: dragged entities are dropped once their buttons are released.
- `frame`: properties of a whole frame and of runs of frames: at most one
  entity is ever waiting or dragged, a waiting entity is dragged once its
  minimum hold has passed, and per entity drag and drop events alternate.

`app/` is the Bevy plugin: its systems read the world, call the library and
apply what it returns. Hit-testing against transforms, UI nodes and sprites is
floating-point geometry and stays there.
