# flanforge_manager

The allocation manager of a CI daemon that runs one job in one disposable guest.
It decides which requests are admitted, which image a guest boots from, which
machines of the hot pool are claimed, kept and retired, what a sweep may delete,
and how every allocation is driven to its end.

`src/` is a Verus library. Each decision is a function from plain values (the
resident entries, the durable records, the host listing, the clock) to a value,
with its contract stated over spec functions beside it. Work that alternates
with the outside world is written as steps: a function takes a step and what
came back of it, and answers the next step. The `law_` proof functions state
what holds across functions.

`app/` is the async daemon around it: stores, the backend, channels, files.

| module | decides |
| --- | --- |
| `admission` | capacity, the sole producer of an image, the cached host listing |
| `creation` | a request's way from authorization to a durable allocation |
| `hot` | claims, bounds, drains and yields of the pool, and its releases |
| `warm` | the image a guest boots from, and what a regeneration may write |
| `reaper` | what a sweep may delete, and its report |
| `recovery` | what a restart makes of records, machines and images |
| `lifecycle`, `teardown`, `shutdown` | how work ends, and what is reported if it does not |
| `operator` | listings, cancellation, status and the operator's credential |
| `state`, `event` | the entries, their changes and the facts these leave, and the bounded history |
| `timeline` | what holds over every history of admissions, changes and drives |
| `config_reload` | the running configuration, and what waits for a restart |
| `domain`, `worker` | the records, the configuration and the host's machines |
| `text`, `order`, `names`, `ident` | texts and their order, sets of names, UUIDs |
