use vstd::prelude::*;

use crate::text::{lemma_nat_text_injective, nat_text, push_nat};

verus! {

/// The name of the temporary numbered `n`: `tmp.n`.
/// The `.` keeps it apart from every C identifier.
pub open spec fn temp_name(n: nat) -> Seq<char> {
    "tmp."@ + nat_text(n)
}

/// Generate a fresh temporary variable name from `counter`, and advance it.
pub fn make_temporary(counter: &mut usize) -> (name: String)
    requires
        *old(counter) < usize::MAX,
    ensures
        name@ == temp_name(*old(counter) as nat),
        *final(counter) == *old(counter) + 1,
{
    let n = *counter;
    *counter = n + 1;
    let mut name = String::new();
    name.append("tmp.");
    push_nat(&mut name, n as u64);
    assert(name@ =~= temp_name(n as nat));
    name
}

/// Reset the counter, so that the next temporary is `tmp.0`.
pub fn reset(counter: &mut usize)
    ensures
        *final(counter) == 0,
{
    *counter = 0;
}

/// Different counter values give different temporary names.
pub proof fn lemma_temp_name_injective(a: nat, b: nat)
    requires
        temp_name(a) == temp_name(b),
    ensures
        a == b,
{
    let p = "tmp."@;
    assert(temp_name(a).skip(p.len() as int) =~= nat_text(a));
    assert(temp_name(b).skip(p.len() as int) =~= nat_text(b));
    lemma_nat_text_injective(a, b);
}

/// A name is never handed out twice until the counter is reset: the temporaries for two
/// different counter values differ.
pub proof fn lemma_temporaries_distinct(a: nat, b: nat)
    requires
        a != b,
    ensures
        temp_name(a) != temp_name(b),
{
    if temp_name(a) == temp_name(b) {
        lemma_temp_name_injective(a, b);
    }
}

} // verus!
