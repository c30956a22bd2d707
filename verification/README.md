# ESP32 workshop

The logic of a small collection of ESP32 firmware: an HTTP dashboard for hardware modules, a
bare-metal HTTP server and a camera server. What the firmware computes and decides stands in
`src/`, where Verus verifies it; `app/` holds the drivers, threads and sockets around it.

| Module        | What it holds                                                              |
| ------------- | -------------------------------------------------------------------------- |
| `bare_metal`  | requests, replies and task decisions of the bare-metal server               |
| `board`       | the pins that are used                                                      |
| `camera`      | the reply to a capture                                                      |
| `display`     | panel commands, framebuffers, lines, triangles, text and render loops        |
| `gamepad`     | the BLE session, the rumble plan and the snapshot for the dashboard          |
| `mem`         | the memory report                                                           |
| `page`        | the dashboard page, streamed in pieces                                      |
| `peripherals` | button, buzzer, joystick, LED, servo, solar panel and distance sensor        |
| `station`     | joining the Wi-Fi network                                                   |
| `text`, `number`, `json`, `query` | text, numbers, JSON strings and request URIs             |

Contracts are stated over mathematical values: texts are sequences of characters, a screen is a
sequence of colours, a session is a step from one state to the next. Public proof functions whose
names start with `law_` state what holds across functions.

Text is drawn and colours are converted by `embedded-graphics`, and advertised names are searched
by `bstr`; the functions that call them say in their comments what is taken on trust.
