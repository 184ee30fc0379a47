# flv

Flash Video, read and written by verified code: the container, the AMF0 and AMF3 values in its
script tags, the tags of Enhanced RTMP, and the two commands of a live session that negotiate and
report.

`src/` is the library. Every function states what it returns for every input, and Verus proves it.
Floating-point numbers are held as their bits (`double::Double`): they are copied, compared and
turned into integers, but nothing is computed with them.

| Module | What it holds |
| --- | --- |
| `header`, `tag` | the file header, tags, their codecs, and filtered tags |
| `amf0`, `amf3` | values, their decoders and encoders |
| `script` | metadata, cue points and XMP packets to be written |
| `ex_audio`, `ex_video`, `mod_ex`, `multitrack`, `multichannel`, `color_info` | what Enhanced RTMP adds to tags |
| `connect`, `on_status` | the commands |
| `demuxer` | files taken apart: discovery, streams, packets, seeking |
| `typed_meta` | the metadata of a file by name and type |
| `wire`, `text`, `double`, `fourcc`, `error` | what the others are built on |

Modules called `laws`, `local`, `stable`, `written` and `keys`, and functions called `law_..`,
state what holds across functions: that what was written reads back, that a value depends only on
the bytes it takes, that a decoded value survives another round, that a written file opens and
gives its packets in order, that a search lands where it should.

Two functions are believed, not proved: `String::from_utf8` and `oxideav_core::Rational::reduced`. Their contracts stand above them.

`app/` plugs the library into oxideav: input and output, registration, and the few conversions
that need floating-point arithmetic.
