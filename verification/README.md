# ePHPm middleware modules

Request and response policies for the ePHPm web server, with contracts that
Verus proves: authentication (`basic-auth`, `api-key`, `jwt`), admission
(`ip-allowlist`, `maintenance-mode`, `ratelimit`), and the shape of what goes in
and out (`redirect`, `cors`, `security-headers`, `request-id`,
`header-transform`, `compression`).

A policy is read once from its JSON configuration (`init`) and then asked about
each request (`invoke`) or response (`invoke_response`). What a policy decides is
a function of the configuration, the request and, where one is needed, the value
that the key-value store holds, the time or a random word: these are handed in as
plain values.

## Layout

- `src/`: the library. `http`, `json`, `config`, `text`, `net`, `codec`, `weight`
  and `credential` hold what the policies share; each policy has a module of its
  own. `site_api_key` is the API-key policy for nodes that serve many sites.
- Every policy has a model (`..Model`), which its contracts speak of, and states
  the properties that hold of it as a whole in proof functions named `law_..`.
- Functions marked `external_body` call outside crates (base64ct, brotli, flate2,
  hmac, ipnetwork, serde_json, sha2, subtle) and std. Their doc comments say what
  is believed of those calls. Beside them stand the declarations of two types of
  serde_json and the contract of `String::push` in `text`; nothing else is
  believed.
- `tests/`: the library seen from outside.
- `app/`: the adapters that implement the host's traits: they convert requests
  and responses, run the key-value store's side of a policy, and supply the clock
  and the entropy.
