use vstd::prelude::*;

verus! {

/// Names an abstract memory object: the object `location` as it stood at the point `time`.
///
/// Identifiers are ordered by `time`, then by `location`, each compared character by
/// character.
#[derive(Clone, Debug, PartialEq, Eq, PartialOrd, Ord, Hash)]
pub struct AbstractIdentifier {
    pub time: String,
    pub location: String,
}

/// Strict lexicographic order on character sequences, by code point.
pub open spec fn chars_lt(a: Seq<char>, b: Seq<char>) -> bool
    decreases a.len(),
{
    if a.len() == 0 {
        b.len() > 0
    } else if b.len() == 0 {
        false
    } else if a[0] != b[0] {
        (a[0] as u32) < (b[0] as u32)
    } else {
        chars_lt(a.skip(1), b.skip(1))
    }
}

pub proof fn lemma_chars_lt_irreflexive(a: Seq<char>)
    ensures
        !chars_lt(a, a),
    decreases a.len(),
{
    if a.len() > 0 {
        lemma_chars_lt_irreflexive(a.skip(1));
    }
}

pub proof fn lemma_chars_lt_transitive(a: Seq<char>, b: Seq<char>, c: Seq<char>)
    requires
        chars_lt(a, b),
        chars_lt(b, c),
    ensures
        chars_lt(a, c),
    decreases a.len(),
{
    if a.len() > 0 && b.len() > 0 && c.len() > 0 && a[0] == b[0] && b[0] == c[0] {
        lemma_chars_lt_transitive(a.skip(1), b.skip(1), c.skip(1));
    }
}

pub proof fn lemma_chars_lt_total(a: Seq<char>, b: Seq<char>)
    ensures
        a == b || chars_lt(a, b) || chars_lt(b, a),
    decreases a.len(),
{
    if a.len() > 0 && b.len() > 0 && a[0] == b[0] {
        lemma_chars_lt_total(a.skip(1), b.skip(1));
        if a.skip(1) == b.skip(1) {
            assert(a.len() == b.len());
            assert(a =~= b) by {
                assert forall|j: int| 0 <= j < a.len() implies a[j] == b[j] by {
                    if j > 0 {
                        assert(a[j] == a.skip(1)[j - 1]);
                        assert(b[j] == b.skip(1)[j - 1]);
                    }
                }
            }
        }
    } else if a.len() == 0 && b.len() == 0 {
        assert(a =~= b);
    } else if a.len() > 0 && b.len() > 0 {
        vstd::utf8::char_u32_cast(a[0], a[0] as u32);
        vstd::utf8::char_u32_cast(b[0], b[0] as u32);
    }
}

pub proof fn lemma_chars_lt_asymmetric(a: Seq<char>, b: Seq<char>)
    requires
        chars_lt(a, b),
    ensures
        !chars_lt(b, a),
{
    if chars_lt(b, a) {
        lemma_chars_lt_transitive(a, b, a);
        lemma_chars_lt_irreflexive(a);
    }
}

/// -1, 0 or 1 as `a` comes before, equals or comes after `b`.
fn compare_strings(a: &String, b: &String) -> (r: i8)
    ensures
        r == -1 <==> chars_lt(a@, b@),
        r == 0 <==> a@ == b@,
        r == 1 <==> chars_lt(b@, a@),
        -1 <= r <= 1,
{
    let sa = a.as_str();
    let sb = b.as_str();
    let na = sa.unicode_len();
    let nb = sb.unicode_len();
    let mut i: usize = 0;
    proof {
        assert(a@.skip(0) =~= a@);
        assert(b@.skip(0) =~= b@);
    }
    while i < na && i < nb
        invariant
            sa@ == a@,
            sb@ == b@,
            na == a@.len(),
            nb == b@.len(),
            i <= na,
            i <= nb,
            forall|j: int| 0 <= j < i ==> a@[j] == b@[j],
            chars_lt(a@, b@) == chars_lt(a@.skip(i as int), b@.skip(i as int)),
            chars_lt(b@, a@) == chars_lt(b@.skip(i as int), a@.skip(i as int)),
        decreases na - i,
    {
        let ca = sa.get_char(i);
        let cb = sb.get_char(i);
        let ua = ca as u32;
        let ub = cb as u32;
        if ua < ub {
            proof {
                lemma_chars_lt_asymmetric(a@, b@);
            }
            return -1;
        }
        if ub < ua {
            proof {
                lemma_chars_lt_asymmetric(b@, a@);
            }
            return 1;
        }
        proof {
            vstd::utf8::char_u32_cast(ca, ua);
            vstd::utf8::char_u32_cast(cb, ub);
            assert(a@.skip(i as int).skip(1) =~= a@.skip(i as int + 1));
            assert(b@.skip(i as int).skip(1) =~= b@.skip(i as int + 1));
        }
        i = i + 1;
    }
    if i < na {
        proof {
            lemma_chars_lt_asymmetric(b@, a@);
        }
        1
    } else if i < nb {
        proof {
            lemma_chars_lt_asymmetric(a@, b@);
        }
        -1
    } else {
        proof {
            assert(a@ =~= b@);
            lemma_chars_lt_irreflexive(a@);
        }
        0
    }
}

impl View for AbstractIdentifier {
    type V = (Seq<char>, Seq<char>);

    open spec fn view(&self) -> (Seq<char>, Seq<char>) {
        (self.time@, self.location@)
    }
}

/// Strict order on identifiers: by time, then by location.
pub open spec fn id_lt(a: (Seq<char>, Seq<char>), b: (Seq<char>, Seq<char>)) -> bool {
    chars_lt(a.0, b.0) || (a.0 == b.0 && chars_lt(a.1, b.1))
}

pub proof fn lemma_id_lt_irreflexive(a: (Seq<char>, Seq<char>))
    ensures
        !id_lt(a, a),
{
    lemma_chars_lt_irreflexive(a.0);
    lemma_chars_lt_irreflexive(a.1);
}

pub proof fn lemma_id_lt_transitive(a: (Seq<char>, Seq<char>), b: (Seq<char>, Seq<char>), c: (Seq<char>, Seq<char>))
    requires
        id_lt(a, b),
        id_lt(b, c),
    ensures
        id_lt(a, c),
{
    if chars_lt(a.0, b.0) && chars_lt(b.0, c.0) {
        lemma_chars_lt_transitive(a.0, b.0, c.0);
    } else if a.0 == b.0 && b.0 == c.0 {
        lemma_chars_lt_transitive(a.1, b.1, c.1);
    }
}

pub proof fn lemma_id_lt_total(a: (Seq<char>, Seq<char>), b: (Seq<char>, Seq<char>))
    ensures
        a == b || id_lt(a, b) || id_lt(b, a),
{
    lemma_chars_lt_total(a.0, b.0);
    lemma_chars_lt_total(a.1, b.1);
}

impl AbstractIdentifier {
    pub fn new(time: String, location: String) -> (r: AbstractIdentifier)
        ensures
            r.time == time,
            r.location == location,
    {
        AbstractIdentifier { time, location }
    }

    /// An equal copy.
    pub fn duplicate(&self) -> (r: AbstractIdentifier)
        ensures
            r == *self,
    {
        AbstractIdentifier { time: self.time.clone(), location: self.location.clone() }
    }

    /// -1, 0 or 1 as `self` comes before, equals or comes after `other`.
    pub fn compare(&self, other: &AbstractIdentifier) -> (r: i8)
        ensures
            r == -1 <==> id_lt(self@, other@),
            r == 0 <==> self@ == other@,
            r == 1 <==> id_lt(other@, self@),
            -1 <= r <= 1,
    {
        let t = compare_strings(&self.time, &other.time);
        if t != 0 {
            proof {
                lemma_chars_lt_irreflexive(self.time@);
            }
            t
        } else {
            compare_strings(&self.location, &other.location)
        }
    }
}

} // verus!
