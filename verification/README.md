# leptos-rerun

Embeds the Rerun web viewer in Leptos applications.

- `src/` is the verified core (Verus): the viewer's configuration types (`types`), the
  container style rule (`container`), the trimming and substring facts it relies on (`text`),
  what is sent to the viewer and when it is restarted (`options`), and the lifecycle decisions
  of one embedded viewer (`lifecycle`), with the laws that relate them.
- `app/` is the Leptos side: the `<RerunViewer>` component, the `RerunViewerContext` that
  drives the lifecycle from reactive signals, the JavaScript bridge, the viewer's events
  (which carry floating-point times), and serializable copies of the core types.
