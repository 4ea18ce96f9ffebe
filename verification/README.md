# order_book_feed

A verified library for a local order book feed. A node writes its order statuses, raw book diffs
and fills to files; the feed reads them line by line, brings the blocks of the two order streams
back together, keeps every user's open orders, and serves websocket clients with levels (`l2Book`),
orders and their diffs (`l4Book`), diffs as they arrive (`l4BookStream`), trades and open orders.

`src/` holds the state and the rules, each with a contract that Verus proves. What the program
around it has to do (read a file, parse a line, put a block into the book, send an answer) the
library hands out as a value, and it is told what came of it.

| module | what it holds |
| --- | --- |
| `address`, `time`, `text` | addresses, block times, the few string operations |
| `address_map`, `key_map` | maps by address and by coin |
| `book`, `node_data`, `messages`, `responses` | what the node writes, what the listener tells, what clients are sent |
| `lines` | text that arrives in pieces, read line by line |
| `batch_queue`, `blocks` | blocks that wait for their counterpart |
| `open_orders` | every user's open orders |
| `listener_view`, `listener` | what the listener knows, and how it reads |
| `watch` | when the feed reads, fetches, waits and gives up |
| `levels`, `grouping` | the best levels of a side; trades and diffs by coin |
| `subscription`, `server`, `dispatch` | what clients ask for and what they are sent |
| `open_orders_laws`, `listener_laws`, `server_laws` | what holds of all of it, whatever arrives |

`app/` is the server: files, sockets, clocks and JSON. The book itself is an `Engine` that the
program brings along: it builds a book from a snapshot of the node, puts blocks into it, and
compares it with later snapshots.

Some results come from outside and are believed rather than proved: address texts (`alloy`), block
times (`chrono`), and three string functions of the standard library. Each of them stands in one
small function whose comment says what is claimed of it.
