# gap

A peer-to-peer file pipe: `send` imports a file or directory into a
temporary blob store and prints a ticket; `receive` fetches the collection
named by the ticket and exports it below the current directory.

`src/` is the verified library (Verus):

- `path`: export-name validation and splitting, export targets (the root's
  components followed by the name's, so an accepted name stays below the
  export root, unless a name component is a Windows drive prefix or the
  root begins with a prefix that no root directory follows), canonical `/`-joined names of paths, and the laws that
  sender names split back into their components and name back the same
  text.
- `progress`: counts, transfer rates and spinner intervals.
- `provider`: the sender's table of connections and requests in flight.
- `import`: import events, the stable by-name order of collection entries,
  total sizes and import parallelism.
- `receive`: collection figures, download and export events, the export
  root.
- `cli`: option spellings and how they read back.
- `ticket`: trimming of ticket addresses and address-lookup decisions.
- `store`: temporary store names, hexadecimal text, send-store refusals.
- `session`: exit statuses and key actions.

`app/` is the command-line program around it (arguments, endpoints, blob
stores, progress bars, terminal). `tests/` exercises the library.
