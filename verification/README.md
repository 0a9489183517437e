# lan_discovery

Discovery of peers on the local network, with its rules verified by Verus.

`src/` holds what is computed and decided:

- `device_name`: the name under which a device shows up;
- `message`, `announcement`: queries and replies, and the JSON text in a reply;
- `response`: what a reply tells, and how long replies are awaited;
- `book`, `peer`: the records of peers, and how a new record takes over an old one;
- `candidates`, `candidate_laws`: where a device may be reached;
- `interface`, `wake`: MAC addresses by address, and the packets that wake a device;
- `endpoint`, `error`: addresses, endpoints and errors;
- `text`, `number`, `order`, `text_map`: texts, port numbers, byte order, and maps.

Each function states its result in `ensures`; the proof functions named `law_..` state
what holds across functions. What is believed without proof is marked
`external_body` or `assume_specification`, with a comment that says what is believed.

`app/` holds the sockets, threads and stores around it. How an endpoint text reads, and
which texts are IP addresses, comes in from there as `Readings`.

`tests/` runs the library on concrete values.
