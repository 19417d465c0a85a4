//! Sweep-archive entry names.
//!
//! The IQ traces of a power sweep are stored in an archive whose entry names
//! encode the attenuation pair they were taken at: an entry named
//! `o{output}d{input}iq` holds the trace for output attenuation `{output}`
//! and input attenuation `{input}`, the two numeric fields separated by a
//! `d`. This module classifies an entry name and extracts the two fields;
//! reading the traces themselves, and turning the fields into numbers, is
//! the caller's business.
//!
//! A name of the `o..iq` shape whose interior does not separate into exactly
//! two fields is malformed. The separator scan tolerates one trailing `d`
//! after the second field, as the loader always has.

use vstd::prelude::*;

verus! {

/// The leading byte of an IQ entry name, `o`.
pub const BYTE_O: u8 = 111;

/// The first of the two trailing bytes of an IQ entry name, `i`.
pub const BYTE_I: u8 = 105;

/// The second of the two trailing bytes of an IQ entry name, `q`.
pub const BYTE_Q: u8 = 113;

/// The separator between the two attenuation fields, `d`.
pub const SEP: u8 = 100;

/// How many times byte `c` occurs in `s`.
pub open spec fn count_byte(s: Seq<u8>, c: u8) -> nat
    decreases s.len(),
{
    if s.len() == 0 {
        0
    } else {
        count_byte(s.drop_last(), c) + if s.last() == c {
            1nat
        } else {
            0nat
        }
    }
}

/// An entry name of the IQ shape: it begins with `o` and ends with `iq`.
pub open spec fn is_iq_name(s: Seq<u8>) -> bool {
    s.len() >= 2 && s[0] == BYTE_O && s[s.len() - 2] == BYTE_I && s[s.len() - 1] == BYTE_Q
}

/// The interior of an IQ entry name: what stands between the leading `o`
/// and the trailing `iq`.
pub open spec fn inner_of(s: Seq<u8>) -> Seq<u8>
    recommends
        s.len() >= 2,
{
    s.subrange(1, s.len() - 2)
}

/// Whether the interior carries a trailing separator.
pub open spec fn ends_with_sep(t: Seq<u8>) -> bool {
    t.len() > 0 && t.last() == SEP
}

/// The interior separates into exactly two fields: either one separator not
/// at the end, or two separators the second of which is the trailing one.
pub open spec fn splits_in_two(t: Seq<u8>) -> bool {
    (count_byte(t, SEP) == 1 && !ends_with_sep(t)) || (count_byte(t, SEP) == 2
        && ends_with_sep(t))
}

/// `a` and `b` are the two fields of interior `t`: neither contains a
/// separator, and `t` is `a`, the separator, `b`, and the trailing
/// separator where `t` has one.
pub open spec fn good_fields(t: Seq<u8>, a: Seq<u8>, b: Seq<u8>) -> bool {
    &&& count_byte(a, SEP) == 0
    &&& count_byte(b, SEP) == 0
    &&& t == a + seq![SEP] + b + (if ends_with_sep(t) {
        seq![SEP]
    } else {
        Seq::<u8>::empty()
    })
}

/// A name the loader inspects without faulting: anything of two or more
/// bytes, or a single byte other than `o`.
pub open spec fn classifiable(s: Seq<u8>) -> bool {
    s.len() >= 2 || (s.len() == 1 && s[0] != BYTE_O)
}

/// What classifying one entry name yields.
#[derive(Debug, PartialEq, Eq)]
pub enum EntryKind {
    /// Not of the `o..iq` shape; the loader passes such an entry over.
    NotIq,
    /// Of the `o..iq` shape, but the interior does not separate into
    /// exactly two fields.
    Malformed,
    /// The two attenuation fields, output then input.
    Fields(Vec<u8>, Vec<u8>),
}

/// A byte occurs in `s` exactly when its count there is not zero.
pub proof fn lemma_count_byte_zero(s: Seq<u8>, c: u8)
    ensures
        count_byte(s, c) == 0 <==> (forall|i: int| 0 <= i < s.len() ==> s[i] != c),
    decreases s.len(),
{
    if s.len() > 0 {
        let pre = s.drop_last();
        lemma_count_byte_zero(pre, c);
        if count_byte(s, c) == 0 {
            assert forall|i: int| 0 <= i < s.len() implies s[i] != c by {
                if i < s.len() - 1 {
                    assert(pre[i] == s[i]);
                }
            }
        }
        if forall|i: int| 0 <= i < s.len() ==> s[i] != c {
            assert forall|i: int| 0 <= i < pre.len() implies pre[i] != c by {
                assert(pre[i] == s[i]);
            }
            assert(count_byte(pre, c) == 0);
            assert(s.last() != c);
        }
    }
}

/// Occurrence counts add up over concatenation.
pub proof fn lemma_count_byte_concat(x: Seq<u8>, y: Seq<u8>, c: u8)
    ensures
        count_byte(x + y, c) == count_byte(x, c) + count_byte(y, c),
    decreases y.len(),
{
    if y.len() == 0 {
        assert(x + y =~= x);
    } else {
        assert((x + y).drop_last() =~= x + y.drop_last());
        assert((x + y).last() == y.last());
        lemma_count_byte_concat(x, y.drop_last(), c);
    }
}

/// Classifies one archive entry name: not an IQ entry, an IQ entry whose
/// interior is malformed, or an IQ entry with its two attenuation fields.
pub fn classify_entry_name(name: &Vec<u8>) -> (r: EntryKind)
    requires
        classifiable(name@),
    ensures
        match r {
            EntryKind::NotIq => !is_iq_name(name@),
            EntryKind::Malformed => is_iq_name(name@) && !splits_in_two(inner_of(name@)),
            EntryKind::Fields(a, b) => is_iq_name(name@) && splits_in_two(inner_of(name@))
                && good_fields(inner_of(name@), a@, b@),
        },
{
    let n = name.len();
    if name[0] != BYTE_O {
        return EntryKind::NotIq;
    }
    if !(name[n - 2] == BYTE_I && name[n - 1] == BYTE_Q) {
        return EntryKind::NotIq;
    }
    assert(is_iq_name(name@));
    assert(n >= 3);
    let ghost t = inner_of(name@);

    let mut i: usize = 1;
    let mut cnt: usize = 0;
    let mut p0: usize = 0;
    let mut have0 = false;
    while i < n - 2
        invariant
            3 <= n == name@.len(),
            1 <= i <= n - 2,
            cnt == count_byte(name@.subrange(1, i as int), SEP),
            cnt < i,
            have0 <==> cnt >= 1,
            have0 ==> 1 <= p0 < i && name@[p0 as int] == SEP,
            forall|j: int| 1 <= j < i && !have0 ==> name@[j] != SEP,
            forall|j: int| 1 <= j < p0 && have0 ==> name@[j] != SEP,
        decreases n - 2 - i,
    {
        proof {
            assert(name@.subrange(1, i + 1).drop_last() =~= name@.subrange(1, i as int));
            assert(name@.subrange(1, i + 1).last() == name@[i as int]);
        }
        if name[i] == SEP {
            cnt = cnt + 1;
            if !have0 {
                p0 = i;
                have0 = true;
            }
        }
        i = i + 1;
    }
    proof {
        assert(name@.subrange(1, n - 2) =~= t);
    }

    let ends = n > 3 && name[n - 3] == SEP;
    proof {
        assert(t.len() == n - 3);
        if n > 3 {
            assert(t.last() == name@[n - 3]);
        }
        assert(ends == ends_with_sep(t));
    }

    if (cnt == 1 && !ends) || (cnt == 2 && ends) {
        assert(splits_in_two(t));
        let mut a: Vec<u8> = Vec::new();
        let mut j: usize = 1;
        while j < p0
            invariant
                1 <= j <= p0 <= name@.len(),
                a@ == name@.subrange(1, j as int),
            decreases p0 - j,
        {
            a.push(name[j]);
            proof {
                assert(a@ =~= name@.subrange(1, j + 1));
            }
            j = j + 1;
        }

        let bend: usize = if ends {
            n - 3
        } else {
            n - 2
        };
        proof {
            // The separator at p0 is not the trailing one: past it the
            // interior still holds count minus one separators.
            let q0 = p0 - 1;
            let pre = t.subrange(0, q0);
            let post = t.subrange(q0 + 1, t.len() as int);
            assert(pre =~= name@.subrange(1, p0 as int));
            assert(t =~= pre + seq![t[q0]] + post);
            lemma_count_byte_concat(pre + seq![t[q0]], post, SEP);
            lemma_count_byte_concat(pre, seq![t[q0]], SEP);
            assert(count_byte(seq![t[q0]], SEP) == 1) by {
                assert(seq![t[q0]].drop_last() =~= Seq::<u8>::empty());
            }
            lemma_count_byte_zero(pre, SEP);
            assert(count_byte(pre, SEP) == 0);
            assert(count_byte(post, SEP) == cnt - 1);
            if ends {
                assert(post.len() > 0) by {
                    lemma_count_byte_zero(post, SEP);
                }
                assert(post.last() == t.last());
                assert(count_byte(post.drop_last(), SEP) == 0);
                lemma_count_byte_zero(post.drop_last(), SEP);
                assert(post.drop_last() =~= name@.subrange(p0 + 1, n - 3));
            } else {
                lemma_count_byte_zero(post, SEP);
                assert(post =~= name@.subrange(p0 + 1, n - 2));
            }
            assert forall|k: int| p0 + 1 <= k < bend implies name@[k] != SEP by {
                let m = k - (p0 + 1);
                if ends {
                    assert(post.drop_last()[m] == name@[k]);
                } else {
                    assert(post[m] == name@[k]);
                }
            }
        }
        assert(p0 + 1 <= bend);

        let mut b: Vec<u8> = Vec::new();
        j = p0 + 1;
        while j < bend
            invariant
                p0 + 1 <= j <= bend <= name@.len(),
                b@ == name@.subrange(p0 + 1, j as int),
            decreases bend - j,
        {
            b.push(name[j]);
            proof {
                assert(b@ =~= name@.subrange(p0 + 1, j + 1));
            }
            j = j + 1;
        }

        proof {
            lemma_count_byte_zero(a@, SEP);
            lemma_count_byte_zero(b@, SEP);
            if ends {
                assert(t =~= a@ + seq![SEP] + b@ + seq![SEP]);
            } else {
                assert(t =~= a@ + seq![SEP] + b@ + Seq::<u8>::empty());
            }
        }
        EntryKind::Fields(a, b)
    } else {
        assert(!splits_in_two(t));
        EntryKind::Malformed
    }
}

/// One IQ entry of the archive: where its name stands in the name list, and
/// its two attenuation fields, output then input.
pub struct IqEntry {
    pub index: usize,
    pub output_field: Vec<u8>,
    pub input_field: Vec<u8>,
}

/// Every IQ-shaped name of the list is listed in `es` by its position.
pub open spec fn lists_every_iq_name(names: Seq<Vec<u8>>, es: Seq<IqEntry>) -> bool {
    forall|i: int|
        0 <= i < names.len() && is_iq_name(#[trigger] names[i]@) ==> exists|j: int|
            0 <= j < es.len() && (#[trigger] es[j]).index == i
}

/// Walks the archive's entry names and collects the IQ entries with their
/// attenuation fields, in the order the names come. Yields nothing when some
/// IQ-shaped name is malformed: loading cannot proceed past such a name.
pub fn iq_entries(names: &Vec<Vec<u8>>) -> (r: Option<Vec<IqEntry>>)
    requires
        forall|i: int| 0 <= i < names@.len() ==> classifiable(#[trigger] names@[i]@),
    ensures
        (r is None) <==> exists|i: int|
            0 <= i < names@.len() && is_iq_name(#[trigger] names@[i]@) && !splits_in_two(
                inner_of(names@[i]@),
            ),
        r matches Some(es) ==> {
            &&& forall|j: int|
                0 <= j < es@.len() ==> {
                    &&& (#[trigger] es@[j]).index < names@.len()
                    &&& is_iq_name(names@[es@[j].index as int]@)
                    &&& good_fields(
                        inner_of(names@[es@[j].index as int]@),
                        es@[j].output_field@,
                        es@[j].input_field@,
                    )
                }
            &&& forall|j1: int, j2: int|
                #![trigger es@[j1], es@[j2]]
                0 <= j1 < j2 < es@.len() ==> es@[j1].index < es@[j2].index
            &&& lists_every_iq_name(names@, es@)
        },
{
    let mut v: Vec<IqEntry> = Vec::new();
    let mut idx: usize = 0;
    while idx < names.len()
        invariant
            idx <= names@.len(),
            forall|i: int| 0 <= i < names@.len() ==> classifiable(#[trigger] names@[i]@),
            forall|i: int|
                0 <= i < idx && is_iq_name(#[trigger] names@[i]@) ==> splits_in_two(
                    inner_of(names@[i]@),
                ),
            forall|j: int|
                0 <= j < v@.len() ==> {
                    &&& (#[trigger] v@[j]).index < idx
                    &&& is_iq_name(names@[v@[j].index as int]@)
                    &&& good_fields(
                        inner_of(names@[v@[j].index as int]@),
                        v@[j].output_field@,
                        v@[j].input_field@,
                    )
                },
            forall|j1: int, j2: int|
                #![trigger v@[j1], v@[j2]]
                0 <= j1 < j2 < v@.len() ==> v@[j1].index < v@[j2].index,
            forall|i: int|
                0 <= i < idx && is_iq_name(#[trigger] names@[i]@) ==> exists|j: int|
                    0 <= j < v@.len() && (#[trigger] v@[j]).index == i,
        decreases names@.len() - idx,
    {
        let ghost prev = v@;
        let name = &names[idx];
        match classify_entry_name(name) {
            EntryKind::NotIq => {
                proof {
                    assert(!is_iq_name(names@[idx as int]@));
                }
            },
            EntryKind::Malformed => {
                assert(is_iq_name(names@[idx as int]@) && !splits_in_two(
                    inner_of(names@[idx as int]@),
                ));
                return None;
            },
            EntryKind::Fields(a, b) => {
                v.push(IqEntry { index: idx, output_field: a, input_field: b });
                proof {
                    assert forall|i: int|
                        0 <= i < idx + 1 && is_iq_name(#[trigger] names@[i]@) implies exists|
                        j: int,
                    | 0 <= j < v@.len() && (#[trigger] v@[j]).index == i by {
                        if i < idx {
                            let j = choose|j: int|
                                0 <= j < prev.len() && (#[trigger] prev[j]).index == i;
                            assert(v@[j].index == i);
                        } else {
                            assert(v@[v@.len() - 1].index == i);
                        }
                    }
                }
            },
        }
        idx = idx + 1;
    }
    proof {
        assert(!(exists|i: int|
            0 <= i < names@.len() && is_iq_name(#[trigger] names@[i]@) && !splits_in_two(
                inner_of(names@[i]@),
            )));
        assert(lists_every_iq_name(names@, v@));
    }
    Some(v)
}

} // verus!
