# Binance USD-M futures feed handler

Follows the perpetual futures of Binance's USD-M market, keeps an order book for each
symbol, and hands best prices and books on to clients over WebSocket.

The library (`src/`) is verified with Verus: its functions carry contracts over
mathematical models, and the laws that span functions are proof functions of their own.
The program around it (`app/`) holds what is left: arguments, network, clocks and logging.

## Layout

| Module | What it holds |
|---|---|
| `decimal`, `json`, `text` | exact decimal numbers, JSON values, the order of texts |
| `levels`, `book`, `books` | one side of a book, one book, the books of all symbols |
| `model` | what a book is and what each event makes of it |
| `messages` | the messages of the venue's streams |
| `feed_handler` | what a message does to the books, and what is published |
| `symbols`, `shard`, `pacing` | which symbols are followed, connections, waits and retries |
| `publisher` | who gets which events, and what clients may ask for |
| `stats`, `report` | health and statistics, and what is written down as JSON |
| `scenarios`, `outcomes`, `fuzz` | scripts of events with a known or reproducible outcome |
| `laws`, `feed_laws` | what holds of books and of the feed as a whole |

## Running

    binance-feed-handler [--max-symbols N | --symbols A,B] [--port N] [--ws-port N]
                         [--ws-base URL] [--fapi-base URL]

`/health` and `/stats` are served on the health port (8080). `/health` always answers
with status 200; the verdict is the field `healthy`. Clients connect to `/ws` on the
WebSocket port (8081) and send

    {"action": "subscribe", "stream": "bbo", "symbols": ["BTCUSDT", "ETHUSDT"]}

with the stream `bbo`, `book` or `all`. Without `symbols` they get all symbols.
`{"action": "unsubscribe"}` ends the subscription.
