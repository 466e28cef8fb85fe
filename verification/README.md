# ai-translate

A desktop translator for KDE/Wayland: translate the selection, a screen region
(OCR) or typed text through MyMemory, an OpenAI-compatible chat API,
LibreTranslate or Google's free endpoint.

The decisions of the program live in a library verified with Verus (`src/`):

- `text` — characters, UTF-8 lengths, trimming, searching, decimal text.
- `chunk` — sentence units, byte-bounded chunks for length-capped backends.
- `langs` — base languages, script-based detection, display names, and the
  choice of source and target for a request.
- `json` — the JSON model the services answer with, and lookups in it.
- `translate` — backend selection, the plan of HTTP requests, reading each
  reply, joining the answers, error messages.
- `capture` — choosing the selection and judging OCR results.
- `shortcuts` — shortcut tables, key codes, and the reader of
  `busctl monitor` output.
- `panel` — the state of the translator window.
- `config` — the settings and their defaults.

`app/` is the program around it: the command line, the configuration file,
running external tools, HTTP, D-Bus, the desktop portal and the egui window.
