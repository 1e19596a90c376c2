# a2ldeser

Extraction of calibration data from ECU flash images: ASAP2 (A2L) metadata
resolution, an Intel HEX memory model and typed decoding of raw bytes, with
the library verified by Verus.

## Layout

- `src/` — the verified library:
  - `a2l` — the A2L objects that extraction reads (characteristics, axis
    descriptors, record layouts, conversion methods and tables, measurements);
  - `hex_reader` — the memory image built from Intel HEX records, with its
    segment model, merge and read operations;
  - `types` — A2L data types and little-endian decoding of typed values;
  - `resolver` — resolution of characteristic and measurement references;
  - `compu_method` — selection of the COMPU_METHOD conversion and its errors;
  - `extractor` — reading the raw values of VALUE, CURVE, MAP, VAL_BLK and
    ASCII characteristics from a memory image;
  - `raw_bytes` — bytes written in hexadecimal on the command line;
  - `text` — rendering of numbers and strings for messages.
- `app/` — the command-line tool: argument handling, file I/O, conversion of
  the parsed A2L file into the library's model, the floating-point
  conversion arithmetic and JSON/text output.
- `tests/` — tests of the library.

Floating-point values (axis parameters, conversion coefficients, decoded
FLOAT32/FLOAT64 values) are carried by the library as their IEEE 754 bit
patterns; the arithmetic on them is done in `app/`.
