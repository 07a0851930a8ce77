# chiefd_core

The rules by which a company's chart of departments and people changes, and the
row changes each decision makes, proved with Verus.

A company is held as its rows: settings, departments, people, the staffing
history, transitions, activity, start decisions and events. Every decision asks
its questions first and then changes every row it changes, or none. Its
contract says exactly when it is refused and with what, when the rows cannot
take it, and what the rows are afterwards.

## Layout

- `src/company.rs` - the rows and their mathematical model, `CompanyModel`.
- `src/rows/` - single row changes, each with the model's twin of it: the chart,
  the order of units and people, the transition and activity ledger, the feed.
- `src/org_view.rs` - the shape of a company: the tree, who heads what, who may
  act where.
- `src/org_projection.rs` - whether a department may be created or somebody
  hired, and the manifest as it would be.
- `src/org_ops/` - the decisions: creating, hiring, appointing, moving,
  reparenting, pausing, benching, shutting down, starting, waking, offboarding,
  removing, attaching.
- `src/org_settings.rs` - the settings row.
- `src/laws/` - what holds of the decisions together: what each of them keeps,
  what one undoes of another, who may make them, and what is told.
- `src/table.rs`, `src/order.rs`, `src/text.rs`, `src/isotime.rs`,
  `src/organization.rs`, `src/organization_spec.rs`, `src/error.rs` - what the
  rest is built of.
- `app/` - the rows in SQLite: it reads them, lets the library decide, and
  writes back what changed.
- `tests/` - the library in use.
