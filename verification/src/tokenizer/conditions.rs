//! The logic of conditions.
use vstd::prelude::*;

use crate::text::{find, find_from, has_prefix, lemma_find_from, occurs_at, trim, white_space};
use crate::tokenizer::jinja::{global_cond, ContextText};

verus! {

/// Text that neither begins nor ends with white space.
pub open spec fn settled(s: Seq<char>) -> bool {
    s.len() > 0 && !white_space(s.first()) && !white_space(s.last())
}

/// Text in one piece.
pub open spec fn unbroken(s: Seq<char>) -> bool {
    settled(s) && !s.contains(' ')
}

/// A condition without operators.
pub open spec fn is_atom(s: Seq<char>) -> bool {
    s == "true"@ || s == "false"@ || s == "add_generation_prompt"@
}

proof fn lemma_atom(s: Seq<char>)
    requires
        is_atom(s),
    ensures
        unbroken(s),
{
    reveal_strlit("true");
    reveal_strlit("false");
    reveal_strlit("add_generation_prompt");
}

/// A conjunction holds where both sides do.
pub proof fn law_and(a: Seq<char>, b: Seq<char>, c: ContextText)
    requires
        unbroken(a),
        settled(b),
    ensures
        global_cond(a + " and "@ + b, c) == (global_cond(a, c) && global_cond(b, c)),
{
    reveal_strlit(" and ");
    let t = a + " and "@ + b;
    let n = a.len() as int;
    lemma_broken(t, n);
    lemma_first_space(a, " and "@, b);
    assert(t.subrange(0, n) =~= a);
    assert(t.subrange(n + 5, t.len() as int) =~= b);
}

/// A disjunction holds where either side does; a conjunction in it would bind first.
pub proof fn law_or(a: Seq<char>, b: Seq<char>, c: ContextText)
    requires
        unbroken(a),
        settled(b),
        find(a + " or "@ + b, " and "@) is None,
    ensures
        global_cond(a + " or "@ + b, c) == (global_cond(a, c) || global_cond(b, c)),
{
    reveal_strlit(" or ");
    let t = a + " or "@ + b;
    let n = a.len() as int;
    lemma_broken(t, n);
    lemma_first_space(a, " or "@, b);
    assert(t.subrange(0, n) =~= a);
    assert(t.subrange(n + 4, t.len() as int) =~= b);
}

/// A negation holds where its operand does not; other operators in it would bind first.
pub proof fn law_not(a: Seq<char>, c: ContextText)
    requires
        settled(a),
        find("not "@ + a, " and "@) is None,
        find("not "@ + a, " or "@) is None,
    ensures
        global_cond("not "@ + a, c) == !global_cond(a, c),
{
    reveal_strlit("not ");
    let t = "not "@ + a;
    lemma_broken(t, 3);
    assert(t.subrange(0, 4) =~= "not "@);
    assert(has_prefix(t, "not "@));
    assert(t.subrange(4, t.len() as int) =~= a);
}

/// Conditions follow the laws of logic: the constants, the prompt's own flag, negation, conjunction
/// and disjunction.
pub proof fn law_conditions_are_logical(a: Seq<char>, b: Seq<char>, c: ContextText)
    requires
        is_atom(a),
        is_atom(b),
    ensures
        global_cond("true"@, c),
        !global_cond("false"@, c),
        global_cond("add_generation_prompt"@, c) == c.add_generation_prompt,
        global_cond("not "@ + a, c) == !global_cond(a, c),
        global_cond(a + " and "@ + b, c) == (global_cond(a, c) && global_cond(b, c)),
        global_cond(a + " or "@ + b, c) == (global_cond(a, c) || global_cond(b, c)),
{
    reveal_strlit("true");
    reveal_strlit("false");
    reveal_strlit("add_generation_prompt");
    reveal_strlit("not ");
    reveal_strlit(" and ");
    reveal_strlit(" or ");
    lemma_atom(a);
    lemma_atom(b);
    law_and(a, b, c);
    let t = a + " or "@ + b;
    let n = a.len() as int;
    lemma_find_from(t, " and "@, 0);
    if find(t, " and "@) is Some {
        let p = find(t, " and "@)->0;
        assert(t.subrange(p, p + 5)[0] == ' ' && t.subrange(p, p + 5)[4] == ' ');
        assert(t[p] == ' ' && t[p + 4] == ' ');
        assert(p < n ==> a[p] == ' ');
        assert(p > n + 3 ==> b[p - n - 4] == ' ');
        assert(p + 4 > n + 3 ==> b[p + 4 - n - 4] == ' ');
    }
    law_or(a, b, c);
    let u = "not "@ + a;
    lemma_find_from(u, " and "@, 0);
    lemma_find_from(u, " or "@, 0);
    if find(u, " and "@) is Some {
        let p = find(u, " and "@)->0;
        assert(u.subrange(p, p + 5)[0] == ' ' && u.subrange(p, p + 5)[4] == ' ');
        assert(u[p + 4] == ' ' && a[p] == ' ');
    }
    if find(u, " or "@) is Some {
        let p = find(u, " or "@)->0;
        assert(u.subrange(p, p + 4)[0] == ' ' && u.subrange(p, p + 4)[3] == ' ');
        assert(u[p] == ' ' && u[p + 3] == ' ');
        assert(p + 3 >= 4 ==> a[p + 3 - 4] == ' ');
    }
    law_not(a, c);
}

/// Text with a space is no atom, and trimming leaves settled text as it is.
proof fn lemma_broken(t: Seq<char>, i: int)
    requires
        settled(t),
        0 <= i < t.len(),
        t[i] == ' ',
    ensures
        !is_atom(t),
        trim(t) == t,
{
    if is_atom(t) {
        lemma_atom(t);
        assert(t.contains(t[i]));
    }
}

/// An operator behind an unbroken text is the first of its kind.
proof fn lemma_first_space(a: Seq<char>, op: Seq<char>, b: Seq<char>)
    requires
        !a.contains(' '),
        op.len() > 0,
        op[0] == ' ',
    ensures
        find(a + op + b, op) == Some(a.len() as int),
{
    let t = a + op + b;
    let n = a.len() as int;
    assert(t.subrange(n, n + op.len()) =~= op);
    assert forall|j: int| 0 <= j < n implies !occurs_at(t, j, op) by {
        if occurs_at(t, j, op) {
            assert(t.subrange(j, j + op.len())[0] == t[j]);
            assert(a[j] == ' ');
        }
    }
    lemma_find_at(t, op, 0, n);
}

/// The only candidate that is an occurrence is found.
pub proof fn lemma_find_at(t: Seq<char>, op: Seq<char>, i: int, n: int)
    requires
        0 <= i <= n,
        occurs_at(t, n, op),
        forall|j: int| i <= j < n ==> !occurs_at(t, j, op),
    ensures
        find_from(t, op, i) == Some(n),
    decreases n - i,
{
    if i < n {
        lemma_find_at(t, op, i + 1, n);
    }
}

} // verus!
