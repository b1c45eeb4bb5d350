# dlq

A command line for AWS SQS dead letter queues, and the library that it is built on. It lists
queues, shows the messages of a queue, and sends the items of a job to a queue in batches, with
retries and with progress kept in SQLite.

## Layout

- `src/` is the library, written in Verus. It holds the rules and computations: which requests are
  made, what follows from a reply, when a run sends and when it only shows, which SQL is run, and
  the texts that the commands print. Its functions carry contracts that Verus proves. The laws that
  span functions are proof functions beside them; those of a whole run are in `run`,
  those of the stored rows in `tables`, and those of a job from its pending items to its rows in
  `staging`. The last two are about what the SQL is meant to do and to bring; the tests hold SQLite
  to it on concrete rows.
- `app/` is the program around it: argument parsing, the network, the database, the terminal. The
  JSON line of a polled message, the debug output of `info` and `send`, and a few fixed lines such
  as headings are made there too.
- `tests/` runs the library on concrete values.

The loader, the writer, the poll and the reader are state machines: the library says what to do
next, and the program does it and reports back.

Where the library calls another crate, the call stands in a small trusted function whose doc
comment says what is claimed of it: `json` (`serde_json`), `ids` (`uuid`), `entry`
(`aws-sdk-sqs`), `statement` (`sqlx`) and `report` (`chrono`).

## Usage

```bash
dlq list
dlq poll <URL>                    # or: DLQ_URL=<URL> dlq poll
dlq send <URL>                    # reads lines from stdin
dlq job load --name send_batch items.jsonl
dlq send-batch <JOB_ID> <URL> [--batch-size N] [--stage-size N] [--concurrency N]
                              [--retry-limit N] [-n N] [--dry-run]
dlq job list | status <ID> | reset <ID>
dlq database seed <NAME> --items N [-p]
dlq database clean
```

`--local` uses test credentials and `http://localhost:4566`; `--endpoint <URL>` overrides the
endpoint. Only jobs named `send_batch` can be sent.
