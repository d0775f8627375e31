# squawkline

An IRC client with a GTK 4 window, whose decisions are verified with Verus.

- `src/` is the library: what the messages of a server change, show and ask for, what is sent
  for what the user types, and what the window shows. Every function states in its contract
  what it returns or changes. What holds of the client as a whole is stated and proved in
  functions whose names begin with `law_`.
- `app/` is the program around it: the configuration file, the connections and the window.
- `tests/` runs the library on given values, with the crates that it calls.

## What the client does

- It connects to several servers at once, each on a thread of its own. A sidebar shows every
  server with its channels below it.
- It negotiates IRCv3 capabilities before it registers, and takes up those that are offered
  later. It authenticates by SASL PLAIN where a password is set and the server offers `sasl`.
- It asks for a channel's recent history on joining, where the server has `draft/chathistory`,
  and shows the lines of a `draft/multiline` batch as one message.
- It answers the CTCP requests `VERSION`, `PING`, `TIME`, `CLIENTINFO` and `SOURCE`.
- It lists the members of each channel, and dims those who are away.
- It knows the commands `/join`, `/part`, `/nick`, `/msg`, `/invite`, `/raw` and `/quote`.

## Configuration

On the first run a default configuration is written to `~/.config/squawkline/config.toml`.
Each `[[servers]]` entry is one network:

```toml
[[servers]]
name = "libera"
nickname = "yournick"
server = "irc.libera.chat"
use_tls = true
channels = ["#somechannel"]
# sasl_account = "yournick"   # the nickname where it is left out
# sasl_password = "..."       # no SASL where it is left out or empty
```

## What is believed and not proved

The functions marked `#[verifier::external_body]` call other crates or std: the wire form of a
message and the names of capabilities (`irc`), Base64 (`base64`), the clock (`chrono`), and
upper and lower case (std). Their comments say what is believed of each call.
