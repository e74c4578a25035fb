# Local quota widget

A floating window that shows what is left of a quota. It reads the newest state from the session
logs on the machine, asks an online service on request, and can wear a photo.

## Layout

- `src/` is the library: everything that is decided or computed, verified with
  [Verus](https://github.com/verus-lang/verus).
  - `session`, `quota`: the session logs, and the snapshots that their events state
  - `online`, `credits`: the answers of the online service
  - `auth`, `headers`, `service`: the login, and asking the service with it
  - `geometry`, `lock`: where the window stands, and the lock around that
  - `skin`, `encoding`: photos, and showing them
  - `json`, `fields`, `text`, `double`: what the others are built on
- `app/` is the program around it: files, the network and the window.
- `tests/` runs the library.

## What is stated

Each function states in its contract what it returns for every input. What relates several
functions is stated by the proof functions whose names begin with `law_`.

Percentages are doubles. The library holds them as bit patterns and proves of its arithmetic that
it rounds to the nearest double, ties to even.

Where another crate computes (JSON, dates, base64, headers, pictures), the call stands behind an
item marked `external_body` or `assume_specification`, whose comment says what is relied on.
