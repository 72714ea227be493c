# gov — governed motion, verified

A supervisory control plane for a manipulator that cannot be commanded without
a policy decision. An intent is adjudicated before any planner or driver is
touched; the planner and driver entry points of `Manipulator` take an
`Approved` token that only `policy::evaluate` mints.

```
Idle → Reasoning → Planning → Executing → Publishing → Idle
```

A refusal, or an intent the policy authority could not answer, returns to
`Idle` with a terminal record and never enters `Planning` or `Executing`.

## Layout

| Path | |
| --- | --- |
| `src/policy.rs` | policies, adjudication, the approval token |
| `src/fsm.rs` | the lifecycle, its step relation, the soundness of its record, and `Governed`, through which every call on the manipulator is recorded |
| `src/log.rs` | the event log |
| `src/invariants.rs` | the invariants a log is checked against |
| `src/fault.rs` | synthetic corruptions of a log, and that each breaks exactly its own invariant |
| `src/cell.rs` | stations, sterile zone, plate bookkeeping |
| `app/` | arm kinematics (floating point) and the browser bindings |

Times are whole milliseconds and station positions whole millimetres.
