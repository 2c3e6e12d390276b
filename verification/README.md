# glowing-spork

A service that listens for PostgreSQL ban events and publishes Discord embeds
about them to registered channels.

- `src/` is the verified library (Verus): the embed template and its XML
  reader, event selection from `EVENT_NAMES`, the backlog and notification
  decisions, placeholder rendering and embed layout, ban timestamps, the SQL
  built from the configured bans table, the schema confirmation, and the
  channel registrations.
- `app/` is the program around it: environment, database connections, the
  LISTEN/NOTIFY loop, the Discord bot and its slash commands (`/register`,
  `/unregister`, `/locale`).
- `tests/` exercises the library.

Outside crates called from the library: `chrono` (reading and formatting ban
timestamps) and `quick_xml` (tokenizing embed templates).
