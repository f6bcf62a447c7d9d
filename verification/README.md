# smart_home

A smart home library: rooms of smart sockets and thermometers, text
reports of devices, rooms and homes, a builder and a report composer, the
text protocol of a remote socket, the configuration and the generator of a
thermometer simulator, the operations of a REST service, and the codes of a
C interface of a socket.

Quantities are fixed-point integers: power in milliwatts, temperature in
thousandths of a degree Celsius.  Reports render them with one decimal
(an exact half rounds to the even tenth) and the socket protocol with
three.  Reading a number that a remote device sends is floating-point work
and stays in `app/`.

- `src/` — the library, verified with Verus: the public functions state
  what they return and change, over spec models of the data; the laws that
  span several functions are public proof functions (`law_*`).
- `tests/` — tests of the library on concrete values.
- `app/` — the programs around it: demos, the TCP socket simulator, the UDP
  thermometer simulator, the axum service, the C interface over raw
  pointers and a libloading demo.  Network exchanges happen here; the
  library decides what to send (`SocketCall`) and reads the replies.
