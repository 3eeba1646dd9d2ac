# betterstack_report

Uptime reporting for BetterStack monitors, verified with Verus.

`src/` is the library. Its functions are verified, except the small trusted
wrappers (`#[verifier::external_body]`) around calls into `chrono`, `url`,
`reqwest` and `str::to_lowercase`, whose contracts state what those calls do:

- `text`: byte-wise string order, substring search, `str::replace`, decimal text.
- `percentage`: availability percentages held by their binary64 encoding, with
  an integer order key that follows the numeric order.
- `date`: command-line dates (through `chrono`), Unix timestamps of midnights,
  the reporting window and the `YYYY-MM-DD` day of a timestamp.
- `address`: web addresses built with the `url` crate.
- `api`: the `Authorization` header and the addresses of every API request.
- `pagination`: collecting a paginated listing page by page, with a 200 ms
  pause between requests.
- `monitor`: display names, status-page membership, monitor filtering.
- `uptime`: the uptime figures of one monitor.
- `report`: search filtering, the report order (a stable sort, proved unique),
  column width and section break.

`app/main.rs` is the command-line program: environment, arguments, HTTP
requests, JSON decoding, concurrency, floating-point figures and printing.
`tests/` exercises the library on concrete values.
