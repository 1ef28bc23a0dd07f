# arrow_substring

Substrings of the elements of columnar arrays, counted in bytes: binary and large binary arrays,
fixed size binary arrays, string and large string arrays, and dictionaries of these.

The library is written in Verus. `src/substring.rs` holds the kernel, and its contracts speak of
`src/cut.rs`, which says where a single substring starts and ends. `src/laws.rs` proves what holds
of substrings as a whole. The other modules are the arrays: their buffers, what makes them well
formed, and how to make and read them.
