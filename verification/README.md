# spice

The decisions of a node that executes chunks apart from block production, written and proved in
Verus.

A block fixes which chunks are executed. The execution itself happens later: the node waits until
the previous block was executed and its receipts came in, executes the chunks of the shards that it
cares about, records what came of it, and hands a witness of the execution to others, who execute
the chunk again from the witness alone and endorse the result.

## Layout

`src/` is the verified library. It does no I/O: what it reads of the chain comes in as answers to
questions (`view`). An operation that lacks an answer stops with the question and is started again
once the answer is known.

| module | |
| --- | --- |
| `hash`, `block`, `receipts`, `statements`, `witness`, `messages`, `error` | the data |
| `by_hash` | tables whose keys are digests |
| `view` | questions, answers and what an operation can come to |
| `order`, `incoming`, `receipts_cache` | which receipts are kept and saved, and in which order |
| `validation`, `core_statements` | execution results, and the checks of a witness |
| `jobs`, `outcome`, `executor` | executing the chunks of a block, and what is made of it |
| `flow` | in which order the work is done |
| `data_distribution` | data that is sent in parts |
| `order_laws`, `receipt_laws`, `statement_laws`, `witness_laws`, `execution_laws`, `flow_laws`, `view_laws` | what holds of the operations together |

`tests/` runs the library. `app/` wires it to a node: it answers the questions from the chain, runs
the work and sends the messages.
