//! The agent-facing workflow manual.
use vstd::prelude::*;

use crate::text::{owned, push_str};

verus! {

/// The opening of the manual: what the tool is for and how it finds its
/// inputs.
pub const PRELUDE: &'static str = r#"# agent-id — Portable agent identity registry

Use `agent-id` to register and look up the permanent human-readable identity for a coding-agent session.

The identity is keyed by the harness session ID. Do not invent a name or register a second name for the same session.

Session discovery, in order:

1. An explicit `SESSION_ID` argument or `--session-id ID`.
2. `AGENT_ID_SESSION_ID`.

The realm is discovered from `--realm NAME`, `AGENT_REALM` (for tests/overrides), or `$XDG_CONFIG_HOME/agent-id/realm` with `$HOME/.config/agent-id/realm` as the fallback. If no realm configuration exists, one is automatically selected and saved to the realm file.

The registry is durable and defaults to `$XDG_DATA_HOME/agent-id`, or `$HOME/.local/share/agent-id` when `XDG_DATA_HOME` is unset. Set `AGENT_ID_HOME` for tests or an isolated registry.

A missing session ID is an error. A missing lookup is an error; register the session first.

## Examples

```bash
agent-id register "$AGENT_ID_SESSION_ID"
agent-id register --family Oak "$AGENT_ID_SESSION_ID"
agent-id lookup "$AGENT_ID_SESSION_ID"
agent-id register --json --family Oak "$AGENT_ID_SESSION_ID"
```

The default output is the full name. Use `--json` when a tool needs the session ID, name parts, realm, slug, and assignment timestamp."#;

/// The command reference that follows the prelude in the full manual.
pub const COMMAND_REFERENCE: &'static str = r#"

## Commands

### `agent-id register [SESSION_ID]` — Allocate a permanent identity

```
--family NAME       Prefer a family name, useful for child agents
--realm NAME        Select the computer realm
--session-id ID     Provide the session ID explicitly
--json              Print the complete assignment as JSON
```

If the session already has a registered identity, that identity is returned unchanged apart from its update time.

### `agent-id lookup [IDENTIFIER]` — Read an existing identity

IDENTIFIER may be a session ID, canonical name, or slug. Without an explicit identifier, lookup uses AGENT_ID_SESSION_ID.

```
--session-id ID     Provide the session ID explicitly
--json              Print the complete assignment as JSON
```

Fails if the identifier has not been registered.

### `agent-id current` — Read the identity for AGENT_ID_SESSION_ID

```
--json              Print the complete assignment as JSON
```

### `agent-id annotate [SESSION_ID]` — Record what a registered session is doing

```
--summary TEXT          Set the concise current-work summary
--clear-summary         Remove the current-work summary
--state VALUE           Set the lifecycle state: working, idle, waiting, blocked, stopped, unknown
--clear-state           Remove the lifecycle state
--cwd PATH              Set the current working directory
--clear-cwd             Remove the current working directory
--extension OWNER=JSON  Set namespaced extension metadata
--clear-extension OWNER Remove one namespaced extension metadata value
--session-id ID         Provide the session ID explicitly
--json                  Print the complete assignment as JSON
```

### `agent-id discover` — List identities, most recently updated first

```
--limit N           Maximum records to print; zero prints all records (default 20)
--recent HOURS      Only include records updated within this many hours
--realm NAME        Only include records in this realm
--all               Include stopped assignments
--json              Print the complete assignments as JSON
```

### `agent-id prune --before TIMESTAMP` — Remove identities older than a cutoff

```
--before TIMESTAMP  Remove records with updated_at before this RFC 3339 timestamp
--dry-run           Preview matching records without deleting them
--json              Print the prune report as JSON
```

### `agent-id prime` — Print this workflow manual

```
--prelude           Omit the command reference
--json              Wrap the manual in a JSON object
```"#;

/// The manual: the prelude alone, or the prelude and the command reference.
pub open spec fn manual_text(prelude_only: bool) -> Seq<char> {
    if prelude_only {
        PRELUDE@
    } else {
        PRELUDE@ + COMMAND_REFERENCE@
    }
}

/// The workflow manual.
pub fn generate(prelude_only: bool) -> (r: String)
    ensures
        r@ == manual_text(prelude_only),
{
    let mut text = owned(PRELUDE);
    if !prelude_only {
        push_str(&mut text, COMMAND_REFERENCE);
    }
    text
}

} // verus!
