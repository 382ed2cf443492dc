# cw1-subkeys

A proxy contract for CosmWasm chains. Its admins relay any message in its name.
They can give other accounts, the subkeys, an allowance of coins to send and
permissions to stake and to withdraw rewards.

The library under `src/` is written in Verus. Each function states in its
contract what it does to the chain and what it answers, and Verus proves it.

- `contract`: setting up, the calls and the queries
- `laws`: what holds of all calls and queries together
- `state`, `admin`: what is kept in the chain's storage, and how it is read and
  written
- `balance`: the arithmetic of allowances
- `json`: the bytes that allowances and permissions are kept as
- `pages`, `keys`: the order and the names of storage entries
- `msg`, `types`, `error`, `text`: plain values

Contracts speak of a `Snapshot` of the chain: the bytes in its storage, and what
it answers for each address. What the storage holds under a key, and what the JSON
of balances, expirations and admins parses to, are names; the functions that call
`cw-storage-plus`, `cw0`, `cw1-whitelist`, `cw2` and `cosmwasm-std` say over these
names what those crates do, and are believed. They are marked `external_body`.

`app/` holds the entry points of the contract and the JSON forms of its messages.

## Storage

| key | value |
| --- | --- |
| `admin_list` | the admins, as `cw1-whitelist` keeps them |
| `contract_info` | the contract's name and version, as `cw2` keeps them |
| map `allowances`, by account | `{"balance":[..],"expires":{..}}` |
| map `permissions`, by account | `{"delegate":..,"redelegate":..,"undelegate":..,"withdraw":..}` |

The objects are what a derived serializer makes of the two structs. Only the
contract writes here, so it reads objects with their fields in this order and no
spaces around them. Bytes of another form are a parse error.

A call that fails leaves it to the chain to undo what it wrote. Only a call that
relays several messages can have written something by then: the sender's
allowance, charged for the messages before the refused one. A failed
instantiation has recorded the version of `cw1-whitelist`.

An increase whose sum is more than an amount can be is not carried out:
`contract::try_execute` answers `None`, and the entry point panics.
