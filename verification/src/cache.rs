//! Where resolved audio is kept: the name under which the audio of a
//! fingerprint lies in the cache. Different fingerprints have different
//! names, also where a file system does not tell upper case from lower.

use vstd::prelude::*;
use vstd::string::StringExecFns;
use vstd::string::StrSliceExecFns;

verus! {

/// A character that stands for itself in a name: a lower-case letter of the
/// Latin alphabet or a digit.
pub open spec fn is_plain(c: char) -> bool {
    ('a' <= c && c <= 'z') || ('0' <= c && c <= '9')
}

/// The character for a number below sixteen: an upper-case letter from `A`
/// to `P`.
pub open spec fn nibble(d: nat) -> char {
    if d == 0 {
        'A'
    } else if d == 1 {
        'B'
    } else if d == 2 {
        'C'
    } else if d == 3 {
        'D'
    } else if d == 4 {
        'E'
    } else if d == 5 {
        'F'
    } else if d == 6 {
        'G'
    } else if d == 7 {
        'H'
    } else if d == 8 {
        'I'
    } else if d == 9 {
        'J'
    } else if d == 10 {
        'K'
    } else if d == 11 {
        'L'
    } else if d == 12 {
        'M'
    } else if d == 13 {
        'N'
    } else if d == 14 {
        'O'
    } else {
        'P'
    }
}

/// A character that does not stand for itself: an underscore, then its code
/// point in six characters, sixteen to the base, highest first.
pub open spec fn escaped(c: char) -> Seq<char> {
    let code = c as nat;
    seq![
        '_',
        nibble(code / 0x100000 % 16),
        nibble(code / 0x10000 % 16),
        nibble(code / 0x1000 % 16),
        nibble(code / 0x100 % 16),
        nibble(code / 0x10 % 16),
        nibble(code % 16),
    ]
}

/// What stands for one character in a name.
pub open spec fn encoded(c: char) -> Seq<char> {
    if is_plain(c) {
        seq![c]
    } else {
        escaped(c)
    }
}

/// The name for a fingerprint: what stands for each of its characters, in
/// order.
pub open spec fn cache_name_of(fingerprint: Seq<char>) -> Seq<char>
    decreases fingerprint.len(),
{
    if fingerprint.len() == 0 {
        Seq::empty()
    } else {
        encoded(fingerprint[0]) + cache_name_of(fingerprint.drop_first())
    }
}

proof fn lemma_nibble_injective(x: nat, y: nat)
    requires
        x < 16,
        y < 16,
        nibble(x) == nibble(y),
    ensures
        x == y,
{
}

/// The code of a character as a file system reads it that does not tell
/// upper case from lower: an upper-case Latin letter counts as its
/// lower-case one.
pub open spec fn folded(c: char) -> nat {
    if 'A' <= c && c <= 'Z' {
        (c as nat) + 32
    } else {
        c as nat
    }
}

/// Two names are the same to a file system that does not tell upper case
/// from lower.
pub open spec fn alike(a: Seq<char>, b: Seq<char>) -> bool {
    &&& a.len() == b.len()
    &&& forall|i: int| 0 <= i < a.len() ==> folded(#[trigger] a[i]) == folded(b[i])
}

proof fn lemma_nibble_folded_injective(x: nat, y: nat)
    requires
        x < 16,
        y < 16,
        folded(nibble(x)) == folded(nibble(y)),
    ensures
        x == y,
{
}

proof fn lemma_escaped_injective(a: char, b: char)
    requires
        escaped(a) == escaped(b),
    ensures
        a == b,
{
    let x = a as nat;
    let y = b as nat;
    assert(escaped(a)[1] == escaped(b)[1]);
    assert(escaped(a)[2] == escaped(b)[2]);
    assert(escaped(a)[3] == escaped(b)[3]);
    assert(escaped(a)[4] == escaped(b)[4]);
    assert(escaped(a)[5] == escaped(b)[5]);
    assert(escaped(a)[6] == escaped(b)[6]);
    lemma_nibble_injective(x / 0x100000 % 16, y / 0x100000 % 16);
    lemma_nibble_injective(x / 0x10000 % 16, y / 0x10000 % 16);
    lemma_nibble_injective(x / 0x1000 % 16, y / 0x1000 % 16);
    lemma_nibble_injective(x / 0x100 % 16, y / 0x100 % 16);
    lemma_nibble_injective(x / 0x10 % 16, y / 0x10 % 16);
    lemma_nibble_injective(x % 16, y % 16);
    assert(x < 0x1000000);
    assert(y < 0x1000000);
    assert(x == y);
}

/// Different fingerprints have names that differ by more than case: no two
/// of them share a file, also on a file system that does not tell upper
/// case from lower.
pub proof fn lemma_cache_names_differ_beyond_case(a: Seq<char>, b: Seq<char>)
    requires
        alike(cache_name_of(a), cache_name_of(b)),
    ensures
        a == b,
    decreases a.len(),
{
    if a.len() == 0 {
        if b.len() > 0 {
            assert(cache_name_of(b).len() >= encoded(b[0]).len());
        }
        assert(a =~= b);
    } else if b.len() == 0 {
        assert(cache_name_of(a).len() >= encoded(a[0]).len());
    } else {
        let ea = encoded(a[0]);
        let eb = encoded(b[0]);
        let ra = cache_name_of(a.drop_first());
        let rb = cache_name_of(b.drop_first());
        let na = ea + ra;
        let nb = eb + rb;
        assert(na[0] == ea[0]);
        assert(nb[0] == eb[0]);
        assert(folded(na[0]) == folded(nb[0]));
        if is_plain(a[0]) {
            assert(is_plain(b[0]));
            assert(a[0] == b[0]);
        } else {
            assert(!is_plain(b[0]));
            assert forall|k: int| 0 <= k < 7 implies folded(ea[k]) == folded(eb[k]) by {
                assert(na[k] == ea[k]);
                assert(nb[k] == eb[k]);
                assert(folded(na[k]) == folded(nb[k]));
            }
            let x = a[0] as nat;
            let y = b[0] as nat;
            assert(folded(ea[1]) == folded(eb[1]));
            assert(folded(ea[2]) == folded(eb[2]));
            assert(folded(ea[3]) == folded(eb[3]));
            assert(folded(ea[4]) == folded(eb[4]));
            assert(folded(ea[5]) == folded(eb[5]));
            assert(folded(ea[6]) == folded(eb[6]));
            lemma_nibble_folded_injective(x / 0x100000 % 16, y / 0x100000 % 16);
            lemma_nibble_folded_injective(x / 0x10000 % 16, y / 0x10000 % 16);
            lemma_nibble_folded_injective(x / 0x1000 % 16, y / 0x1000 % 16);
            lemma_nibble_folded_injective(x / 0x100 % 16, y / 0x100 % 16);
            lemma_nibble_folded_injective(x / 0x10 % 16, y / 0x10 % 16);
            lemma_nibble_folded_injective(x % 16, y % 16);
            assert(ea =~= eb);
            lemma_escaped_injective(a[0], b[0]);
        }
        assert(ea == eb);
        assert(ra.len() == rb.len());
        assert forall|i: int| 0 <= i < ra.len() implies folded(#[trigger] ra[i]) == folded(
            rb[i],
        ) by {
            assert(na[ea.len() + i] == ra[i]);
            assert(nb[eb.len() + i] == rb[i]);
            assert(folded(na[ea.len() + i]) == folded(nb[ea.len() + i]));
        }
        lemma_cache_names_differ_beyond_case(a.drop_first(), b.drop_first());
        assert(a =~= seq![a[0]] + a.drop_first());
        assert(b =~= seq![b[0]] + b.drop_first());
    }
}

/// Different fingerprints have different names.
pub proof fn lemma_cache_names_differ(a: Seq<char>, b: Seq<char>)
    requires
        cache_name_of(a) == cache_name_of(b),
    ensures
        a == b,
    decreases a.len(),
{
    if a.len() == 0 {
        if b.len() > 0 {
            assert(cache_name_of(b).len() >= encoded(b[0]).len());
        }
        assert(a =~= b);
    } else if b.len() == 0 {
        assert(cache_name_of(a).len() >= encoded(a[0]).len());
    } else {
        let ea = encoded(a[0]);
        let eb = encoded(b[0]);
        let ra = cache_name_of(a.drop_first());
        let rb = cache_name_of(b.drop_first());
        assert((ea + ra)[0] == ea[0]);
        assert((eb + rb)[0] == eb[0]);
        if is_plain(a[0]) {
            assert(is_plain(b[0]));
            assert(a[0] == b[0]);
        } else {
            assert(!is_plain(b[0]));
            assert forall|k: int| 0 <= k < 7 implies ea[k] == eb[k] by {
                assert((ea + ra)[k] == ea[k]);
                assert((eb + rb)[k] == eb[k]);
            }
            assert(ea =~= eb);
            lemma_escaped_injective(a[0], b[0]);
        }
        assert(ea == eb);
        assert((ea + ra).skip(ea.len() as int) =~= ra);
        assert((eb + rb).skip(eb.len() as int) =~= rb);
        lemma_cache_names_differ(a.drop_first(), b.drop_first());
        assert(a =~= seq![a[0]] + a.drop_first());
        assert(b =~= seq![b[0]] + b.drop_first());
    }
}

/// The piece of a name that stands for a number below sixteen.
fn nibble_piece(d: u32) -> (piece: &'static str)
    requires
        d < 16,
    ensures
        piece@ == seq![nibble(d as nat)],
{
    proof {
        reveal_strlit("A");
        reveal_strlit("B");
        reveal_strlit("C");
        reveal_strlit("D");
        reveal_strlit("E");
        reveal_strlit("F");
        reveal_strlit("G");
        reveal_strlit("H");
        reveal_strlit("I");
        reveal_strlit("J");
        reveal_strlit("K");
        reveal_strlit("L");
        reveal_strlit("M");
        reveal_strlit("N");
        reveal_strlit("O");
        reveal_strlit("P");
    }
    let piece = if d == 0 {
        "A"
    } else if d == 1 {
        "B"
    } else if d == 2 {
        "C"
    } else if d == 3 {
        "D"
    } else if d == 4 {
        "E"
    } else if d == 5 {
        "F"
    } else if d == 6 {
        "G"
    } else if d == 7 {
        "H"
    } else if d == 8 {
        "I"
    } else if d == 9 {
        "J"
    } else if d == 10 {
        "K"
    } else if d == 11 {
        "L"
    } else if d == 12 {
        "M"
    } else if d == 13 {
        "N"
    } else if d == 14 {
        "O"
    } else {
        "P"
    };
    proof {
        assert(piece@ =~= seq![nibble(d as nat)]);
    }
    piece
}

/// Whether a character stands for itself in a name.
fn plain(c: char) -> (b: bool)
    ensures
        b == is_plain(c),
{
    ('a' <= c && c <= 'z') || ('0' <= c && c <= '9')
}

/// Appends to `name` what stands for a character that does not stand for
/// itself.
fn escape(name: &mut String, c: char)
    ensures
        final(name)@ == old(name)@ + escaped(c),
{
    let code = c as u32;
    proof {
        reveal_strlit("_");
    }
    name.append("_");
    name.append(nibble_piece(code / 0x100000 % 16));
    name.append(nibble_piece(code / 0x10000 % 16));
    name.append(nibble_piece(code / 0x1000 % 16));
    name.append(nibble_piece(code / 0x100 % 16));
    name.append(nibble_piece(code / 0x10 % 16));
    name.append(nibble_piece(code % 16));
    proof {
        assert(name@ =~= old(name)@ + escaped(c));
    }
}

/// The name under which the audio of `fingerprint` lies in the cache.
/// Lower-case Latin letters and digits stand for themselves; every other
/// character is written as an underscore and its code point.
pub fn cache_name(fingerprint: &str) -> (name: String)
    ensures
        name@ == cache_name_of(fingerprint@),
{
    let count = fingerprint.unicode_len();
    let mut name = String::new();
    let mut i: usize = 0;
    proof {
        assert(fingerprint@.skip(0) =~= fingerprint@);
        assert(name@ + cache_name_of(fingerprint@) =~= cache_name_of(fingerprint@));
    }
    while i < count
        invariant
            i <= count,
            count == fingerprint@.len(),
            name@ + cache_name_of(fingerprint@.skip(i as int)) == cache_name_of(fingerprint@),
        decreases count - i,
    {
        let c = fingerprint.get_char(i);
        let ghost before = name@;
        let ghost rest = fingerprint@.skip(i as int);
        proof {
            assert(rest[0] == c);
            assert(rest.drop_first() =~= fingerprint@.skip(i + 1));
        }
        if plain(c) {
            let piece = fingerprint.substring_char(i, i + 1);
            proof {
                assert(piece@ =~= seq![c]);
            }
            name.append(piece);
        } else {
            escape(&mut name, c);
        }
        proof {
            assert(name@ == before + encoded(c));
            assert(before + encoded(c) + cache_name_of(rest.drop_first()) =~= before + (encoded(c)
                + cache_name_of(rest.drop_first())));
        }
        i += 1;
    }
    proof {
        assert(fingerprint@.skip(count as int) =~= Seq::<char>::empty());
        assert(name@ + Seq::<char>::empty() =~= name@);
    }
    name
}

} // verus!
