# portkube

Browse the contexts and services of your Kubernetes clusters in the terminal, and reach every
service from the local machine by its short name: `http://nginx.default` instead of a port-forward.

The decisions are a verified Verus library under `src/`; the program around it, under `app/`, talks
to the terminal, the cluster and the operating system.

| module | what it decides |
|---|---|
| `text` | text as sequences of characters: splitting, joining, lines, trimming, numbers |
| `kube::context` | which contexts a kubeconfig holds |
| `kube::services` | which services a cluster lists, and how their ports and URLs read |
| `network::ipv4` | addresses and their dotted text |
| `network::service_map` | which service entries stand at which address |
| `network::dns` | how DNS queries are read, routed and answered |
| `network::command` | commands and how their failures are told |
| `network::tun` | the tunnel device, loopback aliases, pods to forward to, the service network |
| `network::resolver` | the steps that point the machine's resolver at the proxy, and back |
| `tui::app` | all state of the interface |
| `tui::setup` | the order in which the network is set up, and what is reported of it |
| `tui::ui` | what each screen shows |
| `control` | what keys, ticks and background events do |

Every executable function states in its contract what it returns. Properties that span functions
are public proof functions named `law_...`, next to the functions that they speak of. Among them:

- A query written for `<svc>.<ns>` is answered with the address of that service, where the namespace
  is served and no other service shares both names. Where several do, it is the address of one of
  them.
- Where no backup was left over, uninstalling the resolver after installing it gives every file back
  and leaves neither a backup nor the managed list, as long as each step works. On Linux this needs a
  configuration to begin with: without one, a file of a single line feed stays behind. On macOS the
  namespaces have to be names that a line of the managed list can hold, all different, and none the
  name of another one's backup.
- Taking the proxy out of a configuration again by its lines alone gives the configuration back where
  it has at least one line, each line is ended by a line feed and not by a carriage return as well,
  and none names portkube or the proxy.
- No key or tick moves a selection out of its list; nor does a background event, as long as contexts
  are loaded from the splash only.
- Nothing is drawn outside of the screen. From fourteen rows on the splash shows all of its
  parts; from twenty on it begins a quarter of the way down.

Believed without proof: `String::push` and `std::str::from_utf8` of the standard library, and
`ratatui::layout::Layout::split`. Their doc comments in `text` and `tui::ui` say what is claimed.
