# RMS

A local server for robot fleets: it keeps a catalog of integrations, devices, data sources,
projects and recordings, follows live sessions, hands out control leases, finds devices on the
local network, takes signed heartbeats from edge agents, and converts uploaded files into verified
recordings.

- `src/` is the library. The rules of the server stand here as functions with contracts that
  Verus proves: the catalog and its transactions, control and its leases, projects and their
  assignments, imports and their worker, discovery and approval, heartbeats, the packet parsers,
  the limits on archives, tables and recordings. Laws that hold across functions are the public
  `law_…` proof functions.
- `app/` is the server around it: routes, files, sockets, processes, clocks and the encoding of
  recordings. Times and floating-point numbers are made there and handed to the library; random
  identifiers come from the library and are handed back to it as arguments.
- `tests/` run the library with its outside crates.

The library calls outside crates for digests, signatures, encodings, timestamps, CSV, JSON, MCAP
summaries and records, and authorities. Each of those calls stands behind a wrapper whose contract
says what is relied on.
