# yaset

A subdomain enumerator. The library (`src/`) holds, with their contracts
proved by Verus, the rules that turn what crt.sh, Chaos and asnmap answer
into results, and the decisions of the HTTP prober:

- `text` — trimming, splitting and pattern stripping over characters;
- `address` — IP addresses and their canonical text;
- `subdomains` — a set of host names without repetition;
- `modules::crtsh`, `modules::chaos`, `modules::asnmap` — query addresses and
  the reading of each service's answer;
- `modules::hprobe` — prober configuration, user agents, which addresses to
  request for a host and which count as alive;
- `laws` — properties proved across these functions.

`app/` is the command-line program: it performs the requests, hands the
answers to the library and prints the results.
