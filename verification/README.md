# neuromancer

Head tracking for the Nreal Light glasses. `src/` is a library in Verus: what the
tracker decides and computes on whole numbers, bytes and text, each function with a
contract that Verus proves. `app/` is the program around it.

| Module | What it holds |
|--------|---------------|
| `features`, `klt`, `stereo`, `motion`, `pipeline`, `rectify`, `frame` | visual odometry on gray images: corners, optical flow, stereo matching, sampling of correspondences, the frame that is tracked against |
| `calib`, `tracker`, `inertial`, `imu`, `axis` | inertial tracking: when the gyro is calibrated, what becomes of a sample, replay of recorded samples |
| `output`, `jsonl`, `visual` | datagrams, readout, log lines, recorded frames |
| `cli`, `imu_cli`, `settings`, `log` | command lines, settings, verbosity |
| `gui` | the state behind the window |
| `double`, `text`, `sums` | numbers by their bit patterns, text, finite sums |

Floating-point numbers cross the border of the library as bit patterns
(`double::Double`), which it can compare and negate. The filters and the linear algebra
on them are in `app/`, with the device, the sockets, the files and the window. Numbers
are read and printed there too: the library takes the readings and the texts.

Public proof functions named `law_..` state what holds across functions.
