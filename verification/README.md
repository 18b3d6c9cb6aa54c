# sdr_dsp

Signal-processing blocks for software-defined radio, verified with Verus.

Every block is generic over a number system (`arith::Arithmetic`), and its
contract says which operations it performs, on which operands and in which
order. What is proved therefore holds of rounded arithmetic too. `integers`
holds a number system of 64-bit integers; machine floats are supplied by the
caller, as `app/floats.rs` and the tests do.

| module | what it holds |
| --- | --- |
| `arith`, `integers` | number systems |
| `types`, `complex`, `math`, `powers`, `window` | samples, errors, angles, powers of two, windows |
| `exact` | laws of numbers that are not rounded |
| `block`, `stream`, `kernel` | runs over a stream, buffers, convolution, decimation grids |
| `taps`, `filter` | filter design, FIR, deemphasis and notch filters |
| `decim_taps`, `multirate` | decimation plans, polyphase and rational resamplers |
| `channel`, `loops`, `correction`, `noise` | channel selection, control loops, DC and IQ correction, squelch and noise reduction |
| `demod`, `stereo` | AM, FM, SSB, CW and FM stereo demodulators |
| `apt`, `png` | weather-picture decoder, pictures and PNG files |
| `lrpt` | QPSK front end for digital weather pictures |
| `fft`, `gpu_fft` | spectra, the plan of a transform on a GPU |
| `convert`, `propagation` | sample conversions, link budgets |

A stream may be handed to a block in pieces of any size. That the pieces do not
matter is proved for the blocks, in the functions whose names end in `_append`.

`app/` holds what needs floats, a GPU or files: the engines by `rustfft` and
`wgpu`, and a decoder from a recording to a picture.
