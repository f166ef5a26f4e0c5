# adb-proxy

Share Android devices over the network, with the decisions proved.

- **adb-proxy** stands in front of the adb server of a machine that has devices
  attached. Every connection must start with an eight-character pair code.
- **adb-hub** is an adb server on the client machine. It merges the device lists
  of many proxies and of the local adb server, and hands each connection to the
  backend that has the device.
- On Linux, all users of a machine share one listener. The shared **daemon**
  finds out which user a client belongs to and shows the shared devices and that
  user's own ones. Each user's **agent** talks to the paired proxies; pair codes
  do not leave it.

## Layout

`src/` is the library. Everything in it is verified with Verus: framing and
authentication (`protocol`, `auth`, `ipc`), configuration and policy (`config`,
`policy`, `proxy_config`, `cli`), the device list (`registry`, `tenant`), and what
is done for a connection (`proxy`, `session`, `backend`, `hub`, `daemon`, `agent`,
`service`, `peercred`, `local`). A connection is served in steps: a function takes
what has happened and says what to send and what to wait for. `text`, `digits`,
`octets`, `addr` and `fault` are what the others are written in.

`app/` is the program around it: sockets, files, tasks, system calls, TOML and
JSON, the command lines. It performs what the library decides.

`tests/` runs the library on concrete values.

## What is proved

Each function states its result exactly. The promises that span functions stand as
public proof functions beside them, among others:

- only the pair code lets a client of a proxy pass, and nothing is sent upstream
  before it has (`auth`, `proxy`);
- a disabled device is not listed, and a proxy refuses `host:transport:` and
  `host:tport:serial:` to it (`policy`, `proxy`, `agent`);
- devices with the same serial are told apart by their backends, in the list of a
  hub and in each user's own view (`registry`, `tenant`);
- no two devices of a list are shown under the same serial (`registry`, `tenant`);
- the shared server is handed no request about no device, unless it is known to be
  safe (`daemon`);
- users see the shared devices and their own, and nothing that another user's
  agent does changes that or is told to them (`tenant`, `daemon`);
- a device of another user is answered as not found (`daemon`);
- pair codes do not reach the daemon (`agent`, `ipc`, `daemon`);
- the owner of a connection is known only if exactly one socket matches it
  (`peercred`);
- what is written is read back (`protocol`, `ipc`, `config`, `proxy_config`).

What is believed without proof is marked where it stands: a few functions of the
standard library on strings and times, and the random numbers of `rand`.
