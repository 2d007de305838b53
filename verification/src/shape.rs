//! The shape of every match: it is not empty, lies inside the text, ends on
//! an ASCII byte and gives a well-formed value.

use vstd::prelude::*;
use crate::enums::AnsiSequenceView;
use crate::grammar::{
    charset_rules, cursor_rules, escape_sequence_rule, fixed_rule, fixed_text, graphics_rule,
    int_list_rule, reset_mode_rule, reset_rules, sequence_rule, set_mode_rule, set_rules,
    RuleResult,
};
use crate::render::lemma_fixed_text_ascii;

verus! {

/// What every match has: it takes at least one byte, lies inside the text,
/// ends on an ASCII byte, and gives a well-formed value.
pub open spec fn well_shaped(s: Seq<u8>, r: RuleResult) -> bool {
    r matches Some((v, n)) ==> 1 <= n <= s.len() && s[n - 1] < 0x80 && v.wf()
}

/// A list rule gives as many values as it was asked for.
pub proof fn lemma_int_list_len(s: Seq<u8>, k: nat)
    ensures
        int_list_rule(s, k) matches Some((values, _)) ==> values.len() == k,
    decreases k,
{
    if k > 1 {
        lemma_int_list_len(s, (k - 1) as nat);
    }
}

/// A sequence without parameters matches only as itself, and its match is
/// well shaped.
pub proof fn lemma_fixed_rule_shape(s: Seq<u8>, v: AnsiSequenceView)
    ensures
        well_shaped(s, fixed_rule(s, v)),
        fixed_rule(s, v) matches Some((w, n)) ==> w == v && n == fixed_text(v).len(),
{
    if fixed_rule(s, v) is Some {
        let t = fixed_text(v);
        lemma_fixed_text_ascii(v);
        assert(s.take(t.len() as int)[t.len() - 1] == s[t.len() - 1]);
    }
}

/// Every match of the dispatch is well shaped.
pub proof fn lemma_sequence_rule_shape(s: Seq<u8>)
    ensures
        well_shaped(s, sequence_rule(s)),
{
    assert forall|v: AnsiSequenceView| well_shaped(s, #[trigger] fixed_rule(s, v)) by {
        lemma_fixed_rule_shape(s, v);
    }
    assert(well_shaped(s, cursor_rules(s)));
    assert(well_shaped(s, graphics_rule(s))) by {
        lemma_int_list_len(s.skip(1), 1);
        lemma_int_list_len(s.skip(1), 2);
        lemma_int_list_len(s.skip(1), 3);
    }
    assert(well_shaped(s, set_mode_rule(s)));
    assert(well_shaped(s, reset_mode_rule(s)));
    assert(well_shaped(s, set_rules(s)));
    assert(well_shaped(s, reset_rules(s)));
    assert(well_shaped(s, charset_rules(s)));
}

/// Every match of a whole escape sequence takes at least two bytes, lies
/// inside the text, ends on an ASCII byte, and gives a well-formed value.
pub proof fn lemma_escape_sequence_rule_shape(s: Seq<u8>)
    ensures
        well_shaped(s, escape_sequence_rule(s)),
        escape_sequence_rule(s) matches Some((_, n)) ==> n >= 2,
{
    lemma_sequence_rule_shape(s.skip(1));
}

} // verus!
