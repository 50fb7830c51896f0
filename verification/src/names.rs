//! Target names and their ordering.
//!
//! Targets are kept in the order of their names, compared character by
//! character (which is the order of the names' UTF-8 bytes, the order a
//! `String` key has in an ordered map).
use vstd::prelude::*;

verus! {

/// `a` comes strictly before `b` in lexicographic character order.
pub open spec fn name_lt(a: Seq<char>, b: Seq<char>) -> bool
    decreases a.len(),
{
    if a.len() == 0 {
        b.len() > 0
    } else if b.len() == 0 {
        false
    } else if a[0] != b[0] {
        (a[0] as int) < (b[0] as int)
    } else {
        name_lt(a.drop_first(), b.drop_first())
    }
}

/// No name comes before itself.
pub proof fn lemma_name_lt_irreflexive(a: Seq<char>)
    ensures
        !name_lt(a, a),
    decreases a.len(),
{
    if a.len() > 0 {
        lemma_name_lt_irreflexive(a.drop_first());
    }
}

/// The order on names is transitive.
pub proof fn lemma_name_lt_transitive(a: Seq<char>, b: Seq<char>, c: Seq<char>)
    requires
        name_lt(a, b),
        name_lt(b, c),
    ensures
        name_lt(a, c),
    decreases a.len(),
{
    if a.len() > 0 && b.len() > 0 && c.len() > 0 && a[0] == b[0] && b[0] == c[0] {
        lemma_name_lt_transitive(a.drop_first(), b.drop_first(), c.drop_first());
    }
}

/// Outcome of comparing two names.
#[derive(Clone, Copy, Debug, PartialEq, Eq, Structural)]
pub enum NameOrder {
    Less,
    Equal,
    Greater,
}

/// Compares two names in lexicographic character order.
pub fn compare_names(a: &str, b: &str) -> (r: NameOrder)
    ensures
        (r == NameOrder::Less) <==> name_lt(a@, b@),
        (r == NameOrder::Equal) <==> a@ == b@,
        (r == NameOrder::Greater) <==> name_lt(b@, a@),
{
    let la = a.unicode_len();
    let lb = b.unicode_len();
    let mut i: usize = 0;
    proof {
        assert(a@.skip(0) =~= a@);
        assert(b@.skip(0) =~= b@);
    }
    while i < la && i < lb
        invariant
            la == a@.len(),
            lb == b@.len(),
            i <= la,
            i <= lb,
            a@.subrange(0, i as int) =~= b@.subrange(0, i as int),
            name_lt(a@, b@) == name_lt(a@.skip(i as int), b@.skip(i as int)),
            name_lt(b@, a@) == name_lt(b@.skip(i as int), a@.skip(i as int)),
        decreases la - i,
    {
        let ca = a.get_char(i);
        let cb = b.get_char(i);
        let ghost sa = a@.skip(i as int);
        let ghost sb = b@.skip(i as int);
        assert(sa[0] == ca && sb[0] == cb);
        if ca != cb {
            proof {
                if a@ == b@ {
                    assert(a@[i as int] == b@[i as int]);
                }
            }
            if (ca as u32) < (cb as u32) {
                return NameOrder::Less;
            } else {
                return NameOrder::Greater;
            }
        }
        assert(sa.drop_first() =~= a@.skip(i + 1));
        assert(sb.drop_first() =~= b@.skip(i + 1));
        i = i + 1;
        assert(a@.subrange(0, i as int) =~= a@.subrange(0, i - 1) + seq![ca]);
        assert(b@.subrange(0, i as int) =~= b@.subrange(0, i - 1) + seq![cb]);
    }
    if i == la && i == lb {
        assert(a@ =~= a@.subrange(0, i as int));
        assert(b@ =~= b@.subrange(0, i as int));
        proof {
            lemma_name_lt_irreflexive(a@);
        }
        NameOrder::Equal
    } else if i == la {
        assert(a@.skip(i as int).len() == 0);
        proof {
            if a@ == b@ {
                assert(a@.len() == b@.len());
            }
        }
        NameOrder::Less
    } else {
        assert(b@.skip(i as int).len() == 0);
        proof {
            if a@ == b@ {
                assert(a@.len() == b@.len());
            }
        }
        NameOrder::Greater
    }
}

} // verus!
