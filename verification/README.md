# transcribe-cli

A speech transcription tool: recordings and live streams go in, text comes out.
Russian is transcribed by GigaAM v3 (CTC), English by Parakeet TDT v2, both
with ONNX Runtime.

- `src/` is the verified core: everything the tool decides, except whether a
  frame is speech, with contracts that Verus proves.
- `app/` is the program around it: the command line, the server, files, the
  network, and all arithmetic on floating point samples, by which speech is told
  from noise.
- `tests/` runs the core on concrete values.

## The core

| module | what it holds |
| --- | --- |
| `stream`, `stream_laws` | windows over a stream and the settling of overlapping text |
| `dynamic_chunk` | cutting live sound into speech segments |
| `live`, `raw_live` | live streams: when to decode, what is new, what is transcribed |
| `chunking`, `features` | chunks of a recording, frames and the layout of features |
| `gigaam`, `parakeet` | settings of the two models |
| `scores`, `onnx_ctc`, `onnx_transducer` | from scores to tokens to text |
| `audio`, `urls`, `video` | where media lies and how its sound track is read |
| `model`, `model_download` | the files of the models and how they are fetched |
| `runtime_library`, `runtime_install` | the library that runs the models |
| `language`, `cli`, `rest`, `report` | requests, answers and messages |
| `text`, `words`, `paths`, `numbers` | texts, words and paths |

Samples are a type parameter and scores are bit patterns, so the core holds no
floating point number. Proof functions whose names start with `law_` state what
holds across functions.

The filter banks of the English model are read from
`assets/onnx_asr_fbanks.npz` next to the program. `--gpu` needs a program that was
built with the variable `TRANSCRIBE_CLI_CUDA` set.
