# coprocessor

A host for region observers, verified with Verus.

Users implement observer traits to watch what happens to a region: commands
before they are proposed and around their application, snapshot data, split
checks, role and region changes, executed commands. A `CoprocessorHost` keeps
the observers in a `Registry`, ordered by a number (a smaller number is run
earlier, equal numbers in the order of registration), and takes each hook
through them until one answers with an error or sets the bypass.

| module | what it holds |
| --- | --- |
| `messages` | the values that travel through the hooks |
| `observer` | the observer traits and the context that their hooks share |
| `entry` | ordered lists of observers, with the laws of their order |
| `hook` | each hook as a value that one loop can run |
| `dispatch` | the loop, what it means to have run it, and its laws |
| `journal` | the calls outside the hooks: starting, stopping, executed commands |
| `dispatcher` | `Registry` and `CoprocessorHost` |

What an observer does is its own affair. Each hook has a relation ending in
`_outcome` (`true` unless the implementor says more) between what the hook is
given and what it leaves behind. The contracts of the host are stated over these
relations: a dispatch is a chain of outcomes, one for each observer that is run,
in order, up to the first that ends it. Each of them is given a context about the
region of the dispatch, whatever the ones before it wrote there. Where a host function has nothing else
to return, it returns the context after the last observer, as a ghost value, or
a `Journal` of the calls that it made through it. Both are there for proofs and
take no room. They say which calls were made, in which order and with what; a
further call on an observer, made past the context or the journal, they do not
rule out.
