# dora_pallets

The pallets of the Dora parachain, written in Verus with their behaviour
stated in contracts and proved:

- `collator_staking`: candidates stake to become collators, delegators back
  them, the top candidates (a bounded set of bonds, highest stake first) are
  kept up to date, and each session gets the fixed collators followed by the
  highest staked top candidates. `set` holds the ordered set of bonds,
  `seats` the collators' total against the collator seats, `types` the
  candidate, delegator and round records.
- `ping_pong`: pings sibling parachains at the end of every block and
  answers their pings with pongs.
- `xclient`: registers a name for an account on a registration server chain.

A call works on the pallet's storage and plain values and returns what it
asks of the runtime: funds to reserve or deposit, XCM messages to send and
events to emit. Where a call depends on the world (whether an account can
reserve an amount, whether its author key is registered, whether a message
was sent) the runtime passes that in. `app/` is that runtime side.

SCALE encoding goes through `parity-scale-codec` (`scale`) and per-thing
arithmetic through `sp-arithmetic` (`per_thing`); the contracts of those
calls are stated there.
