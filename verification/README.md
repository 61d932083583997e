# dummycloud

A local stand-in for the Deye microinverter cloud: inverters connect to TCP
port 10000, their frames are answered with the time response, and their
readings are published to an MQTT broker with Home Assistant discovery.

- `src/` is the verified library (Verus): frame parsing and building
  (`protocol`), cutting the TCP stream into frames and deciding what each
  frame gets (`stream`), calendar arithmetic for report timestamps
  (`calendar`), configuration checks and broker settings (`config`), and the
  MQTT messages and discovery configurations (`mqtt`).
- `app/` is the service around it: environment, logging, the TCP server, the
  MQTT client, JSON encoding, and the efficiency figure, which is computed in
  floating point.
- `tests/` exercises the library on concrete values.

Readings are kept in the fixed-point units the inverter sends (tenths of a
volt, hundredths of a kWh, ...); published values are the shortest decimal
form of those numbers.
