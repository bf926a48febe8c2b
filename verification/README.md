# slmodem-sip-bridge

A bridge between the soft modem `slmodemd` and a SIP trunk. The modem asks for a
number; the bridge registers with the trunk, places the call, and relays audio
between the modem's socket (16-bit linear samples) and RTP (mu-law).

`src/` is the library, verified with Verus: message and SDP reading and writing,
digest authentication, the registration and invitation state machines, the RTP
framing, the codec, the relay, the course of a session, and the control of an
Asterisk server through ARI. It does no I/O: state machines are handed what was
received and say what to send.

`app/` is the program around it: arguments, sockets, HTTP, websockets, timers
and logging.

| module | what it holds |
| --- | --- |
| `codec`, `rtp`, `relay` | mu-law, RTP packets, the two directions of the media relay |
| `sdp`, `message`, `digest`, `sip` | SDP, SIP messages, digest authentication, requests |
| `registration`, `invitation` | REGISTER and INVITE as state machines |
| `read_back` | what requests say is found again by whoever reads them |
| `dial_string`, `bridge` | numbers to dial, waiting for them, the course of a session |
| `ari_url`, `ari_external_media`, `ari_control`, `ari_session` | control of an Asterisk server |
| `config`, `ids` | settings, identifiers |
| `text`, `numeral`, `net` | text, numbers and addresses |

Laws that span several functions are public proof functions named `law_...`.
