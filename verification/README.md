# my_remote_speaker

A loudspeaker that is played over the network: it follows the audio devices of its host, mixes
tracks for each of them, keeps its clock set by time servers, stores samples for remote callers,
and runs as an Android module.

The crate is a Verus library. What the speaker decides is written in `src/` as functions on plain
values, with contracts that Verus proves. Threads, sockets, files and sound cards are in `app/`.

| module | what it decides |
| --- | --- |
| `task` | the states of tasks: progress, results, cancellation, and what is cast to which type |
| `clock` | which replies of the time servers count, their median, and the time that follows |
| `aud::sum`, `aud::mixer` | where a track sits among the summers, when to catch up or to pause |
| `aud::host`, `aud::handler` | what a look at the devices asks for, and the life of a stream |
| `aud::devices`, `aud::manager` | the directory of the devices and the commands to them |
| `rmt` | the key pair, the databases, and the stages of storing a sample |
| `android_*`, `launcher` | the payload of the launcher, its log, and the process that it runs |
| `util`, `order`, `text` | searching, sorting and comparing |

Where the library calls another crate, the call stands in a small function whose contract is
believed rather than proved; its doc comment says what is claimed of the call. These are calls of
`dashmap`, `chrono`, `iroh`, `base64`, `sha2` and of the standard library.

Points in time are nanoseconds on a stopwatch that the caller reads. Functions that change
something hand back what the caller has to do about it: wake those who wait, start or cancel a
worker, connect a wire, send an event.
