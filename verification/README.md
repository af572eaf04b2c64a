# drogue_endpoint

Command routing for the cloud endpoints of an IoT platform, verified with Verus.

- `src/registry.rs`: a keyed registry (one entry per key) with a map view, the
  base of both tables below.
- `src/commands.rs`: the device command table; each subscribed device gets a
  bounded tokio channel, and a command for a device goes into the channel
  whose receiver its subscription returned.
- `src/router.rs`: the HTTP endpoint's command router; a broadcast reaches every
  subscribed device once, after which the router is empty.
- `src/handler.rs`: what the streaming command handlers do on each event.
- `src/http.rs`: publish requests, command bodies and publish replies.
- `src/config.rs`: endpoint source selection and the TLS switch.
- `app/`: the actix-web HTTP endpoint around the library.
