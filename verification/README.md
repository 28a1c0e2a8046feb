# PianoTuner core (verified)

The tuning logic of an Android piano tuner, as a Verus library
(`tuner_core`, under `src/`) and the application around it (`app/`).

`src/` holds what the tuner decides without floating point, each function
with a contract that Verus proves:

* `cents` – key names (`"C#4"`) and their parsing; reading a key's name
  back gives the key.
* `calendar`, `tuning_file` – the `.ptun` format's checks, the ordering of
  its inharmonicity map, and its `YYYY-MM-DDTHH:MM:SSZ` timestamps, proved
  against a direct statement of the Gregorian calendar.
* `temperament` – the built-in temperaments' names, menu order and lookup,
  and the key-to-pitch-class mapping.
* `storage` – file names in the tuning library: sanitised stems with no
  separators, `.`-free apart from the `.ptun` suffix, so every path ends in
  the file's own name; for a library directory that does not start with two
  separators, the path is that directory, then a separator unless the
  directory is empty or already ends with one, then the file name.
* `audio` – the capture ring buffer, which always holds the newest samples.
* `state`, `tuning_curve`, `pitch_detection` – key selection and locking,
  keyboard regions, detector parameter checks.
* `text` – character helpers shared by the above.

`app/` holds the rest: audio capture, the FFT analysis, inharmonicity fits,
stretch curves and everything else computed in floating point, JSON
(de)serialisation, file I/O and the egui user interface.
