# bpa_analysis

The verified core of a business-process analysis service: it reads documents, asks an AI
to structure them by a response schema or by the ontology, writes the answers into
ontology individuals, and groups similar business processes into clusters.

`src/` is the library, verified with Verus:

- `text`, `json`, `kv`, `individual`, `mapping`, `onto`: strings, JSON values, association
  lists, individuals of the store and the loaded part of the ontology, each with its model.
- `schema`, `schema_facts`: response schemas, the schema shown to the AI, and what it never
  holds.
- `response`, `ai_result`, `request`, `types`, `common`, `conversion_facts`: building AI
  requests, reading answers into individuals, and the short-name conversion with its round
  trip.
- `extractors`: Word and Excel text from what docx-rs and calamine read (app/ makes those
  reads, where their panics are caught), PDF page selection, image messages.
- `pipeline`, `processing`, `handlers`, `clustering`, `queue`: the decisions of the pipelines,
  handlers, the clustering state machine (with connected components) and the queue.

`app/` is the service around it: configuration, the queue, storage, the AI client, files,
rendering and image scaling.
