# yewchat

A websocket chat room ("Yew Arena"): players register a nickname, post messages,
and react to each other's messages with one of three emojis. This crate holds the
verified core of both sides; `app/` holds the server executable and the browser
components around it.

- `src/text.rs`: JSON string literals (through `serde_json`), decimal numbers,
  the Unicode white-space test and suffix test.
- `src/frame.rs`: the `{"messageType","dataArray","data"}` frame both sides exchange.
- `src/search.rs`: first-match search, the model of `iter().find(..)`.
- `src/server.rs`: the room state on the server: registration, posting, reactions
  (no reactions to one's own messages, no repeated reactions), disconnects, and the
  frames broadcast after each change; its invariant and laws.
- `src/client.rs`: the room as a player sees it, how it follows server frames,
  the frames a player sends, and what each message shows.
- `app/main.rs`: the tokio server: sockets, JSON parsing, locking and broadcasting.
- `app/components/`: the Yew components, built into the web front end.
