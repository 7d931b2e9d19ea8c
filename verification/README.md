# stromzaehler2mqtt

Reads telegrams of an eBZ DD3 electricity meter (EN 62056-21 mode D) from its
optical interface and publishes selected readings over MQTT, with Home
Assistant discovery.

- `src/` is the verified library: telegram parsing (`parser`, with `text` and
  `number`), the Home Assistant messages (`mqtt`), MQTT packet encoding
  (`mqtt_client`), telegram framing on the serial line (`serial`), the
  configuration types (`config`), and the decisions of the sensor and MQTT
  loops (`app`).
- `app/` is the program around it: configuration loading, the serial port,
  the TCP connection to the broker, threads, and logging. It also forms the
  value of each decimal reading: the library checks the literal against the
  grammar of `f64::from_str` and hands it to a function of the caller, and
  the program parses it as an `f64` and writes it with `Display`.
- `tests/` exercises the library.
