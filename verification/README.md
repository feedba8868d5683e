# frontend

The logic of a personal portfolio site (home, about, projects, blog, docs,
technology map, contact, 404), written in Verus: every function in `src/` carries
a contract that the verifier proves.

- `src/text.rs`, `src/order.rs`: string helpers over `Seq<char>` and the string order.
- `src/i18n.rs`, `src/date_utils.rs`, `src/calendar.rs`: languages, displayed dates,
  the current year from the clock.
- `src/markdown/`: text, slugs, tables of contents, code blocks and rendering
  decisions for the markdown tree.
- `src/content_db.rs`, `src/sitemap.rs`, `src/seo.rs`: the content database, the
  sitemap and page metadata.
- `src/pages/`, `src/components/`, `src/listing.rs`, `src/media.rs`, `src/query.rs`:
  what each page computes (filters, ordering, pagination, navigation trees,
  addresses, images).
- `tests/`: tests on concrete values.
- `app/`: the server that reads the content build and serves `sitemap.xml`.
