# banshee

The verified core of Banshee, a desktop editor that finds highlight moments in long videos and
renders vertical clips for TikTok, Reels and Shorts.

`src/` is the library, verified with Verus:

- `timeline` — which stretches of a trimmed clip survive its removed ranges (times by rank);
- `filters` — FFmpeg filter-graph text: cut graph, crop/scale stage, escaping, labels, log tails;
- `render` — overlay inputs, text and picture overlay stages, audio mix, the whole render graph,
  encoder options;
- `logs` — reading `signalstats`, `silencedetect` and `volumedetect` logs;
- `ai` — model prices and exact call costs, the model list, ranking-request texts, data URLs;
- `commands` — checks behind the desktop commands (names, settings, API keys, resource kinds);
- `upscaler` — whether and how frames are upscaled, and the fallback warning;
- `domain`, `storage`, `media` — the shared vocabulary, default settings, presets, stream choice;
- `text` — character-level primitives (trimming, words, search, lines, decimals).

`app/` is the unverified shell: the serialisable records, FFmpeg/Real-ESRGAN processes, the
OpenAI HTTP client, the SQLite and credential stores, and the desktop commands. It keeps every
floating-point time value and converts to and from the library's types.
