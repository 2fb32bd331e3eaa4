# agentx-ifstack

An AgentX subagent that serves the `ifStackTable` of the IF-MIB
(`1.3.6.1.2.1.31.1.2`) for Linux hosts: which network interface runs directly
over which other one.

The crate has two parts. `src/` is the library. All of its logic is verified
with Verus; what it calls in other crates stands behind small functions whose
contracts say what is relied on. `app/` is the program around it: sockets, the
clock, threads, the configuration file, the log.

| Module | What it decides |
| --- | --- |
| `link` | whether observed interfaces are a consistent inventory, and the stack that they form |
| `mib` | the rows of the table, and how they are looked up and searched |
| `oid` | object identifiers and their order |
| `monitor` | when to take an inventory, and what becomes of the table |
| `netlink` | how the kernel's messages are read |
| `attributes` | which of the kernel's messages on an interface cannot be read |
| `wire` | how the protocol's messages are read and written |
| `session` | how a session is opened and requests are answered |
| `supervisor` | how long to wait before connecting again |
| `config` | what the command line and the configuration file amount to |
| `notify` | where to report readiness |
| `pairs`, `text`, `time`, `error` | what the others build on |
