# classic_sync

Verified monitors for seven classic synchronisation problems: the sleeping
barber, the one-lane bridge, the dining philosophers, producers and consumers
over a channel and over a bounded buffer, readers and writers, and the
cigarette smokers.

`src/` holds, for each problem, the state that the problem's lock protects and
the decisions taken under that lock (admit or turn away, take or wait), with
contracts over a mathematical view of the state and proved laws such as
first-come-first-served order under any interleaving of calls, one
direction at a time on the bridge, and that philosophers holding forks hold disjoint forks over whole runs. `app/` runs each problem with real threads, mutexes and
condition variables, calling the library under the lock:
`classic_sync <barber|bridge|philosophers|channels|monitor|readers-writers|smokers>`.
