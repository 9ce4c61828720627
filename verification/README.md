# prism-llae

A low-latency audio engine for Windows, with a command line tool for live
monitoring and roundtrip latency tests. Its logic is verified with Verus.

- `src/` is the library: sample formats, the ring between the capture and the
  render thread, what each backend (WASAPI, WDM/KS, ASIO) asks of its devices and
  makes of their answers, the latency probe, the benchmark sweep, its log and its
  spreadsheet report. Every function there has a contract that is proved, but for
  the wrappers around calls into `std` and the Windows bindings: their contracts
  are believed, and each says which call it stands for.
- `tests/` runs the library on concrete values.
- `app/` is the program around it: the calls into the system, the threads, and the
  floating point arithmetic.

Samples are handled as the bit patterns of single-precision numbers. The library
scales and rounds them in integer arithmetic. What that comes to is proved; that a
floating point unit comes to the same bits is what `tests/format.rs` compares on
many samples.

The report takes the workbook's style sheet and theme from `report/styles.xml` and
`report/theme1.xml` beside the program.
