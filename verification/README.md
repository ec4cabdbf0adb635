# Service Pilot

Service Pilot discovers and controls local services: Docker containers,
Homebrew services and user-defined command services kept as one JSON file
each under `~/servicepilot/customservices/`.

The crate `service_pilot` (under `src/`) holds the logic of the application,
written in Verus and verified: how service ids are split, which command line
each request runs, how `docker ps`, `docker inspect` and `brew` output is read
into service definitions, how custom services are looked up, validated,
restarted and shown, and in what order the service list comes out. Each
public function states in its contract what it returns, and the laws that
relate several functions are proof functions next to them.

- `text`: trimming, splitting and number parsing on characters.
- `ports`: published ports and port mappings of containers.
- `json`: JSON documents as plain values, and the port bindings in them.
- `model`: the records the library reads and produces.
- `naming`: service ids, display names, file names and paths.
- `docker`, `brew`, `custom`: the three providers.
- `order`, `catalog`: the stable sort and the service list.
- `commands`: what each request of the user interface runs or concerns.

`app/` is the Tauri application around the library: it runs the programs,
reads and writes the files, parses JSON with serde, and hands the results to
the library. `tests/` exercises the library on concrete values.
