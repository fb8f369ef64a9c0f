# omfiles

Reads Open-Meteo (`.om`) files through a backend that hands out byte ranges, such as a server that
supports HTTP range requests.

`src/` is the library, verified with Verus. It decides which bytes are requested and says what
becomes of the replies:

- `file_format`, `little_endian`, `variable`: headers, trailers and metadata blocks;
- `opening`: opening a file of the current or the legacy format;
- `reader_async`: readers of variables;
- `children`, `child_search`: looking up a child by name with few requests;
- `array_read`: the steps of reading a region of an array;
- `backends::http`, `decimal`: the headers of HTTP requests and responses;
- `child_search_laws`, `array_read_laws`: what holds of every search and of every read;
- `sharing`: what is taken on trust of `async_lock::Semaphore` and of `Arc::clone`.

`app/` performs the requests asynchronously and decodes array data with the C library of the file
format.
