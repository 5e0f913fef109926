# vmm

The logic of a small virtual machine monitor for Linux guests on KVM, verified with Verus, and
the daemon around it.

- `src/boot` builds what a kernel finds in memory: boot parameters, command line, MP tables.
- `src/hypervisor` holds guest RAM, the boot GDT and page tables, CPUID leaves and register
  state, and the boundary towards the hypervisor.
- `src/devices` holds the device bus and the device models: serial port, clock, PCI stub,
  virtio-mmio block and network devices over split virtqueues.
- `src/vm` holds a machine's life cycle, how it is put together and booted, and what happens
  when its processor stops.
- `src/control` holds the protocol, the machines' manager, client sessions and the event bridge.
- `src/bytes.rs` and `src/text.rs` are integers as bytes and as text.

Contracts speak of guest memory as a map from address to byte, of devices by views, and of
what lies outside (disks, networks, interrupt lines, processors) by relations that an
implementer may strengthen. Modules named `..._laws`, and the public proof functions of the
others, state what holds of several calls together.

What is proved of guest memory is proved of memory that stands still during a call. A guest's
processor is stopped while its own accesses are handled, but the poller that delivers received
frames runs beside it: of a delivery the contracts hold where the guest leaves the queue's rings,
its descriptors and the posted buffers alone meanwhile, as a driver does.

`app` is the program: the control socket, KVM's system calls, threads, the tap interface and the
disk image, and the command-line tools with their defaults. Every other decision is the
library's.
