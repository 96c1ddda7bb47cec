# Schooner

The decisions of a small Raft server, verified with Verus.

`src/` is the library. It holds no socket, thread, timer or file: each loop of a server is a step
function, from the state of the server and an event to the next state and an action.

- `text`, `decimal`: text and numbers
- `message`: framing of messages, and the kinds of message
- `peer`: the servers of a cluster and the file that lists them
- `log_entry`, `append_entries`, `log`: the replicated log and the leader's requests
- `server`, `follower`, `leader`, `listener`: a server and its roles
- `events`: events for one channel
- `leading`: what the peers of a leader are given, over all the messages that it takes
- `serving`: what holds of a server from its first step to its last
- `laws`: what holds of a leader, a follower and a client together

`app/` runs the steps: it listens, keeps the log in a file, turns requests and responses into JSON
and back, and does what the actions say. What a server reads is a line `Length: n` and `n` bytes of
UTF-8. The message that sends a client elsewhere has that form too; other replies, and the requests
that a leader sends, are the bare text.

`tests/` runs the library on given values.
