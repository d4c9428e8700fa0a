# room_finder

Finds the cheapest rooms on offer and how far each lies, by car, from the places one
goes to.

- `src/` is the verified library (Verus): the per-host request limit of the HTTP client
  (`limiter`), the URLs of routes and rooms (`urls`), the choice and display of rooms
  (`rooms`), the room site's search form and its encoding (`form`), the links read from a
  page of search results (`listing`), the goals and their times (`goals`), the checks around
  geocoding (`location`), and text helpers (`text`).
- `app/` is the program around it: HTTP through a disk cache, geocoding, the OSRM response,
  the input files and the output.
- `tests/` runs the library on concrete values.
