use vstd::prelude::*;
use vstd::string::*;

verus! {

/// A shell script that attaches gdb to the process whose id is its first
/// argument and prints that process's environment block, read record by
/// record from `__environ`.
pub const GDB_HELPER_SCRIPT: &'static str = r#"#!/bin/sh

set -eu

OUTPUT=$(mktemp --quiet)

cat << EOF | gdb --pid="$1"
set pagination off
set variable \$env = (char**) __environ
set variable \$i=0
while (\$env[\$i] != 0)
  set variable \$pos=0
  set variable \$char=1
  while (\$char != 0)
    set variable \$char=\$env[\$i][\$pos++]
    append binary value $OUTPUT \$char
  end
  set \$i = \$i+1
end
EOF

cat "$OUTPUT"
rm "$OUTPUT"
"#;

/// The gdb helper script, which takes the process id as its argument.
pub fn get_gdb_helper() -> (r: String)
    ensures
        r@ == GDB_HELPER_SCRIPT@,
{
    String::from_str(GDB_HELPER_SCRIPT)
}

} // verus!
