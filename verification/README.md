# sc_contracts

Four MultiversX smart contracts, written as Verus-verified Rust:

- `lottery`: players enter with at least one EGLD, a random draw names a winner,
  the winner redeems the sum of all entries.
- `attacker`: a contract that drives the lottery through calls, including an
  asynchronous draw whose callback asks for another draw.
- `erc1155`: an ERC-1155 style ledger of fungible and non-fungible token types,
  with ESDT deposits and withdrawals.
- `subscription` (with `payments`, `service`, `substract_payments`): users deposit
  whitelisted tokens, and a service takes a monthly payment from a subscribed user.
  `register_service` checks a service list and stores nothing, as the contract it
  comes from does; a service, its price list and a user's subscription exist once
  `service_id_or_insert`, `set_service_info` and `set_subscription_type` wrote them.

Amounts are `BigNat`, unsigned integers of any size (`bignat`), so no credit or sum
is ever refused for its size. Type ids and NFT ids are `u128`: reaching past that
would take 2^128 creations or owner writes.

Each contract is a state value with a mathematical view; every endpoint states in its
contract the resulting state, and that a refused call leaves the state unchanged.
Laws that relate several calls are public proof functions named `law_*`.

`src/` is the verified library. `app/` connects it to the MultiversX VM API
(`multiversx-sc`): it reads caller, payments, randomness and epoch, and performs
the transfers and calls the library asks for.
