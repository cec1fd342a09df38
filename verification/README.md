# Matrix-IRC bridge

A minimalist bridge between Matrix rooms and IRC channels. The decisions of the bridge are in a
library that is verified with Verus; a thin program around it does the talking.

- `src/` is the library.
  - `config`: the settings and bridges, from the environment variables.
  - `session`: the homeserver, the account and the room IDs, checked.
  - `rooms`: which channel belongs to which room.
  - `journal`: the file of processed events.
  - `replies`: the recent messages that a reply may quote.
  - `matrix_side`: what is done about a Matrix message.
  - `irc_side`: who speaks on IRC, and what is done about an IRC message.
  - `text`, `numeral`, `keyed`: previews, names, numerals, and a map that can list its keys.
- `tests/` runs the library.
- `app/` is the program: it reads the environment, talks to Matrix and IRC, and keeps the journal.

## Configuration

The bridge is configured by environment variables; a `.env` file is read as well.

    MATRIX_ACCESS_TOKEN=your_matrix_access_token
    MATRIX_USER_ID=@bridge:example.org
    MATRIX_DEVICE_ID=BRIDGE_DEVICE
    MATRIX_HOMESERVER=https://example.org
    IRC_SERVER=irc.example.net
    IRC_PORT=6697
    IRC_USE_TLS=true
    IRC_SERVER_PASSWORD=your_irc_password

    BRIDGE_1_MATRIX_ROOM_ID=!roomid1:example.org
    BRIDGE_1_IRC_CHANNEL=#channel1

    BRIDGE_2_MATRIX_ROOM_ID=!roomid2:example.org
    BRIDGE_2_IRC_CHANNEL=#channel2

The device and the password of the IRC server are optional. The bridges are numbered from one on,
and end at the first number for which the room or the channel is missing.
