# vpngate_link

A server-side link manager for VPNGate relays: it reads the public VPNGate catalog, starts
OpenVPN towards a chosen relay, and exposes a local HTTP/SOCKS5 relay whose outbound
connections leave through the tunnel.

The library under `src/` holds the logic, with its contracts proved by Verus:

- `text` — the string operations everything else is stated in (lines, words, trimming,
  ASCII case, decimal numbers), each with a specification and a verified implementation.
- `catalog` — reading the catalog CSV and the OpenVPN configurations it carries, node ids,
  and the order of the node list.
- `proxy` — the relay protocols: HTTP proxy requests (tunnel or forward) and the SOCKS5
  exchange as a step function driven by the caller's reads.
- `control` — access to the control API, the automatic choice of a node, refreshes, node
  tests and the bounded service log.
- `openvpn` — what OpenVPN output means, how nodes and the runtime status move through a
  connection, and the argument and routing command lists.
- `config` — the configuration from environment variables.
- `model` — the data, including the ordered set of favorite node ids.

`app/` is the program around it: HTTP server, sockets, processes, files and JSON.
