# blip25_mbe

The discrete core of a P25 multi-band-excitation vocoder, verified with Verus.

A vocoder computes with real numbers and then decides: which pitch candidate
wins, which bands are voiced, whether a frame is silence, what is remembered for
the next frame, how bits are laid out in a packet. The decisions, the state and
the layouts are in `src/`, each with a contract that says exactly what comes out.
The real-valued quantities (spectra, error curves, amplitudes, gains, waveforms)
are computed in `app/`, which calls the library for every decision.

Values cross between the two in three ways: samples and amplitudes are opaque
payloads, values that are compared stand as order-preserving integer keys, and a
test against a threshold is a `bool`.

| Module | What it holds |
|--------|---------------|
| `dvsi_soft_decision` | soft-decision packets and nibble streams |
| `analysis`, `lookahead`, `silence` | frame dispatch, buffering, silence detection |
| `pitch`, `pyin`, `refine`, `selection`, `order_key` | pitch search, tracking, refinement |
| `vuv`, `amplitude`, `basis` | voicing bands, amplitude rules, spectrum slots |
| `predictor` | predictor state of both rates |
| `denoise`, `predenoise` | noise estimation and streaming |
| `tone_detect` | tone matching |
| `mbe_baseline`, `phase_regen` | synthesis plans, concealment, noise source |
| `profile` | stage timing |

Functions named `law_*` state properties that span several functions or frames.
The window tables of the standard and its quantisers are supplied by the caller
of `app/`.
