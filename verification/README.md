# sdroxide

The logic of an amateur-radio station as a verified library: what a receiver,
a transmitter and the programs around them decide and compute, with contracts
that Verus proves.

| Module     | What it holds |
|------------|---------------|
| `adsb`     | the 1090 MHz pulse-position demodulator and a transponder to try it with |
| `airspy`   | the Airspy's control protocol, its gains, rates and sample packing |
| `airspyhf` | the Airspy HF+ stream: control, accounting, the sample ring |
| `aprs`     | the APRS information field, read and written |
| `atchat`   | the chat modem, its shared channel and its messages |
| `ax25`     | AX.25 addresses and frames |
| `cat`      | rig control: CI-V, flrig, polling, pacing, keying |
| `digi`     | packet radio: channel access, the monitor, beacons |
| `drm`      | the orders of a DRM decoder |
| `dsp`      | signalling tones, the predistorter and its feedback loop |

Floating point, sockets, ports and threads are in `app/`, around the library.
Quantities that are fractions are integers in the library; the doc comments of
the types say in which unit.
