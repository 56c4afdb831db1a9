# webmachine

A verified core for resource-oriented HTTP handling in the webmachine style: a request is
routed to a resource, runs through the webmachine decision diagram, and leaves with a status
and headers that follow from the request, the resource's declarations and its callbacks'
answers.

## Layout

- `src/` is the library, verified with Verus:
  - `text`, `views`: character-level helpers and their lemmas;
  - `headers`: header values with parameters, parsed and written (with round-trip laws);
  - `context`: the request, the response, the context and its metadata;
  - `paths`, `query`, `request`: request paths and route matching, query strings, and the
    request built from the parts of an HTTP request;
  - `content_negotiation`: the choice of media type, language, charset and encoding;
  - `dates`: RFC 2822 dates, read and written by `chrono`;
  - `decisions`, `state_machine`: the decision diagram, each decision as a step from the
    context and the resource's answer to the next state, and the termination proof;
  - `finalise`: the status a request ends with and the headers a response is completed with.
- `app/` holds what the verifier does not see: resources made of callbacks, the loop that asks
  a resource its questions and feeds the answers to the verified steps, the dispatcher, and
  the conversions from and to the `http` crate's types.
- `tests/` exercises the library on concrete values.

## Design notes

- Name-to-value maps (request and response headers, header parameters, query parameters,
  path variables, metadata) are vectors of pairs. Verus proves `len` and lookups for maps
  keyed by integers, not by strings, so the library keeps the pairs in order and proves of
  each function that builds one that every name occurs once (`keys_unique`). Response
  headers therefore go out in the order they were set.
- Metadata values are text, integers and flags. A value of any type behind `dyn Any` has
  nothing the verifier can read, so the library has no such variant; an application that
  needs one keeps it beside the context.
