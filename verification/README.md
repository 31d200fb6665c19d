# rcr

A small Linux container runtime: namespaces, cgroups, seccomp, capabilities,
OverlayFS images built in layers, and state files instead of a daemon.

- `src/` is the library, with proved contracts. It computes the runtime's
  names, paths, settings and plans: veth names from the SHA-256 of a
  container's name, layer ids and the layout of an image build, the lower
  directories of an image, free addresses in `10.0.0.0/24`, state, log, cgroup
  and overlay paths, the `ip`, `iptables` and cgroup settings a container
  needs, the arguments of the container process, the environment file, the
  resolver configuration and the container listing.
- `app/` is the program around it: command-line parsing, files, processes,
  namespaces, mounts, capabilities and seccomp, and the checks that only the
  running system can answer (whether a layer is cached, whether a process is
  alive, whether the NAT rule is present).
- `tests/` runs the library on concrete values.
