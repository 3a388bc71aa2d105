use vstd::prelude::*;

verus! {

/// The environment block made of `strings`, each followed by a NUL.
pub open spec fn join_strings(strings: Seq<Seq<u8>>) -> Seq<u8>
    decreases strings.len(),
{
    if strings.len() == 0 {
        seq![]
    } else {
        join_strings(strings.drop_last()) + strings.last() + seq![0u8]
    }
}

/// Builds an environment block from the strings of a process's environment
/// vector, keeping each string's own NUL terminator.
pub fn env_block_from_strings(strings: &Vec<Vec<u8>>) -> (r: Vec<u8>)
    ensures
        r@ == join_strings(strings@.map_values(|s: Vec<u8>| s@)),
{
    let ghost all = strings@.map_values(|s: Vec<u8>| s@);
    let mut out: Vec<u8> = Vec::new();
    let mut i: usize = 0;
    while i < strings.len()
        invariant
            i <= strings@.len(),
            all == strings@.map_values(|s: Vec<u8>| s@),
            out@ == join_strings(all.take(i as int)),
        decreases strings@.len() - i,
    {
        let s = &strings[i];
        let mut k: usize = 0;
        let ghost before = out@;
        while k < s.len()
            invariant
                k <= s@.len(),
                out@ == before + s@.take(k as int),
            decreases s@.len() - k,
        {
            out.push(s[k]);
            k += 1;
            assert(out@ =~= before + s@.take(k as int));
        }
        out.push(0u8);
        assert(all.take(i + 1).drop_last() =~= all.take(i as int));
        assert(all[i as int] == s@);
        assert(s@.take(k as int) =~= s@);
        assert(out@ =~= join_strings(all.take(i + 1)));
        i += 1;
    }
    assert(all.take(i as int) =~= all);
    out
}

} // verus!
