use vstd::prelude::*;
use vstd::string::*;
use crate::platform_ext::{decimal, decimal_string};

verus! {

/// The gdb helper script up to the process id.
pub const GDB_SCRIPT_HEAD: &'static str = r#"#!/bin/sh

set -eu

OUTPUT=$(mktemp --quiet)

cat << EOF | gdb --pid="#;

/// The gdb helper script after the process id.
pub const GDB_SCRIPT_TAIL: &'static str = r#"
set pagination off
set variable \$env = (char**) __environ
set variable \$i=0
while (\$env[\$i] != 0)
  set variable \$pos=0
  set variable \$char=1
  while (\$char != 0)
    set variable \$char=\$env[\$i][\$pos++]
    append binary value $OUTPUT \$char
  end
  set \$i = \$i+1
end
EOF

cat "$OUTPUT"
rm "$OUTPUT"
"#;

/// A shell script that attaches gdb to process `pid` and prints its
/// environment block, read record by record from `__environ`.
pub fn get_gdb_helper(pid: u32) -> (r: String)
    ensures
        r@ == GDB_SCRIPT_HEAD@ + decimal(pid as nat) + GDB_SCRIPT_TAIL@,
{
    let mut script = String::from_str(GDB_SCRIPT_HEAD);
    let id = decimal_string(pid);
    script.append(id.as_str());
    script.append(GDB_SCRIPT_TAIL);
    script
}

} // verus!
