# yrs-ax signaling

A signaling server for [y-webrtc](https://github.com/yjs/y-webrtc) clients: peers subscribe to
topics, and what one of them publishes on a topic is forwarded to the subscribers of it.

- `src/` is the library, verified with [Verus](https://github.com/verus-lang/verus): the table of
  topics, the delivery of publications, the reaction to each message, the heartbeat and the end of
  a connection. It does not wait, send or lock; it says what is to be done next. `src/laws.rs`
  states what holds of the server as a whole.
- `app/` runs the library on [axum](https://github.com/tokio-rs/axum) websockets: it shares the
  topics between connections, reads and writes frames, and turns JSON text into signals.
- `tests/` exercises the library.

```rust
let signaling = SignalingService::new();
let app: Router = Router::new().route(
    "/signaling",
    get({
        let signaling = signaling.clone();
        move |ws: WebSocketUpgrade| async move {
            ws.on_upgrade(move |socket| async move {
                if let Err(e) = signaling_conn(socket, signaling).await {
                    eprintln!("signaling connection failed: {e}");
                }
            })
        }
    }),
);
```
