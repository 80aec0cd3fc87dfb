# cloud_metadata

Instance metadata for the wasmCloud `cloud-metadata` capability
(`get: func() -> result<metadata>`, with `metadata { private-ip, public-ip,
region { name, code, city }, id }`), for DigitalOcean, Google Compute Engine,
Fly.io and kind, and the logic of the two "hello" components that show the
visits per region.

* `src/` is the verified library: the metadata record and how each cloud's
  document becomes one; the visit counters of the key/value store (`$region`,
  `$region:os:$os`, `$region:browser:$browser`), the keys one visit increments
  and the totals per region read back; the request routing of `fly-hello`
  (`cloud-hello` routes with axum's `Router`, in `app/`); the replies of both
  web components, and when a failing step of either page ends it; the
  write decisions of a WASI output stream; and the pages themselves, rendered
  by Handlebars from the visit counts (the rendering is a trusted call).

* `app/` fetches the documents (reqwest, hostname, flytrap's resolver),
  reads them with serde, and carries the WASI HTTP plumbing and host imports
  of the components. The components' own WIT worlds (metadata
  service, key/value store, logging, embedded assets) are imported through
  the `Host` trait, which the component's generated bindings implement.
* `tests/` runs the library on concrete values.

The interface document lists the result of `get` as `result<region>`; every
provider answers with the whole `metadata` record (whose `region` field is
that region), as the `metadata` record of the interface's types describes.
