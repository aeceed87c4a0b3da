//! Splitting text on a delimiter character, the way `str::split` does, and
//! trimming surrounding whitespace, the way `str::trim` does.
use vstd::prelude::*;

verus! {

/// A character with the Unicode `White_Space` property — the characters
/// `str::trim` strips.
pub open spec fn is_wspace(c: char) -> bool {
    ||| c as u32 == 0x09
    ||| c as u32 == 0x0A
    ||| c as u32 == 0x0B
    ||| c as u32 == 0x0C
    ||| c as u32 == 0x0D
    ||| c as u32 == 0x20
    ||| c as u32 == 0x85
    ||| c as u32 == 0xA0
    ||| c as u32 == 0x1680
    ||| (0x2000 <= c as u32 && c as u32 <= 0x200A)
    ||| c as u32 == 0x2028
    ||| c as u32 == 0x2029
    ||| c as u32 == 0x202F
    ||| c as u32 == 0x205F
    ||| c as u32 == 0x3000
}

/// Whether `c` is whitespace in the sense of `is_wspace`.
pub fn is_space_char(c: char) -> (r: bool)
    ensures
        r == is_wspace(c),
{
    let u = c as u32;
    u == 0x09 || u == 0x0A || u == 0x0B || u == 0x0C || u == 0x0D || u == 0x20 || u == 0x85 || u
        == 0xA0 || u == 0x1680 || (0x2000 <= u && u <= 0x200A) || u == 0x2028 || u == 0x2029 || u
        == 0x202F || u == 0x205F || u == 0x3000
}

/// `s` without leading whitespace.
pub open spec fn trim_front(s: Seq<char>) -> Seq<char>
    decreases s.len(),
{
    if s.len() == 0 {
        s
    } else if is_wspace(s[0]) {
        trim_front(s.drop_first())
    } else {
        s
    }
}

/// `s` without trailing whitespace.
pub open spec fn trim_back(s: Seq<char>) -> Seq<char>
    decreases s.len(),
{
    if s.len() == 0 {
        s
    } else if is_wspace(s.last()) {
        trim_back(s.drop_last())
    } else {
        s
    }
}

/// `s` without leading and trailing whitespace, as `str::trim` leaves it.
pub open spec fn trimmed(s: Seq<char>) -> Seq<char> {
    trim_back(trim_front(s))
}

/// Strips leading and trailing whitespace, as `str::trim` does.
pub fn trim_str(s: &str) -> (r: String)
    ensures
        r@ == trimmed(s@),
{
    let n = s.unicode_len();
    let mut a: usize = 0;
    proof {
        assert(s@.skip(0) =~= s@);
    }
    while a < n && is_space_char(s.get_char(a))
        invariant
            a <= n,
            n == s@.len(),
            trim_front(s@) == trim_front(s@.skip(a as int)),
        decreases n - a,
    {
        proof {
            assert(s@.skip(a as int)[0] == s@[a as int]);
            assert(s@.skip(a as int).drop_first() =~= s@.skip(a as int + 1));
        }
        a += 1;
    }
    proof {
        if a < n {
            assert(s@.skip(a as int)[0] == s@[a as int]);
        }
        assert(trim_front(s@) == s@.skip(a as int));
        assert(s@.skip(a as int) =~= s@.subrange(a as int, n as int));
    }
    let mut b: usize = n;
    while b > a && is_space_char(s.get_char(b - 1))
        invariant
            a <= b <= n,
            n == s@.len(),
            trim_front(s@) == s@.subrange(a as int, n as int),
            trim_back(s@.subrange(a as int, n as int)) == trim_back(
                s@.subrange(a as int, b as int),
            ),
        decreases b,
    {
        proof {
            let t = s@.subrange(a as int, b as int);
            assert(t.last() == s@[b as int - 1]);
            assert(t.drop_last() =~= s@.subrange(a as int, b as int - 1));
        }
        b -= 1;
    }
    proof {
        let t = s@.subrange(a as int, b as int);
        if b > a {
            assert(t.last() == s@[b as int - 1]);
        }
        assert(trim_back(t) == t);
    }
    s.substring_char(a, b).to_owned()
}

/// `s` split on every occurrence of `d`: the fields between delimiters, in
/// order. The empty sequence splits into one empty field.
pub open spec fn split_on(s: Seq<char>, d: char) -> Seq<Seq<char>>
    decreases s.len(),
{
    if s.len() == 0 {
        seq![Seq::<char>::empty()]
    } else if s[0] == d {
        seq![Seq::<char>::empty()] + split_on(s.drop_first(), d)
    } else {
        let rest = split_on(s.drop_first(), d);
        seq![seq![s[0]] + rest[0]] + rest.drop_first()
    }
}

/// Splitting always yields at least one field.
pub proof fn lemma_split_on_len(s: Seq<char>, d: char)
    ensures
        split_on(s, d).len() >= 1,
    decreases s.len(),
{
    if s.len() == 0 {
    } else if s[0] == d {
    } else {
        lemma_split_on_len(s.drop_first(), d);
    }
}

/// A sequence without the delimiter is a single field.
pub proof fn lemma_split_on_whole(t: Seq<char>, d: char)
    requires
        forall|i: int| 0 <= i < t.len() ==> t[i] != d,
    ensures
        split_on(t, d) == seq![t],
    decreases t.len(),
{
    if t.len() == 0 {
        assert(split_on(t, d) =~~= seq![t]);
    } else {
        lemma_split_on_whole(t.drop_first(), d);
        assert(seq![t[0]] + t.drop_first() =~= t);
        assert(split_on(t, d) =~= seq![t]);
    }
}

/// Splitting `t + [d] + u`, with `t` delimiter-free, gives the field `t`
/// followed by the fields of `u`.
pub proof fn lemma_split_on_first(t: Seq<char>, u: Seq<char>, d: char)
    requires
        forall|i: int| 0 <= i < t.len() ==> t[i] != d,
    ensures
        split_on(t + seq![d] + u, d) == seq![t] + split_on(u, d),
    decreases t.len(),
{
    let s = t + seq![d] + u;
    if t.len() == 0 {
        assert(s[0] == d);
        assert(s.drop_first() =~= u);
        assert(split_on(s, d) =~~= seq![t] + split_on(u, d));
    } else {
        assert(s[0] == t[0]);
        assert(s[0] != d);
        assert(s.drop_first() =~= t.drop_first() + seq![d] + u);
        lemma_split_on_first(t.drop_first(), u, d);
        lemma_split_on_len(u, d);
        let rest = split_on(s.drop_first(), d);
        assert(rest == seq![t.drop_first()] + split_on(u, d));
        assert(rest[0] == t.drop_first());
        assert(seq![s[0]] + rest[0] =~= t);
        assert(rest.drop_first() =~= split_on(u, d));
        assert(split_on(s, d) =~= seq![t] + split_on(u, d));
    }
}

/// Splits `s` on the character `d`, as `str::split` does.
pub fn split_str(s: &str, d: char) -> (fields: Vec<String>)
    ensures
        fields.deep_view() == split_on(s@, d),
{
    let n = s.unicode_len();
    let mut fields: Vec<String> = Vec::new();
    let mut start: usize = 0;
    let mut i: usize = 0;
    proof {
        assert(s@.skip(0) =~= s@);
        assert(fields.deep_view() =~= Seq::<Seq<char>>::empty());
        assert(Seq::<Seq<char>>::empty() + split_on(s@, d) =~= split_on(s@, d));
    }
    while i < n
        invariant
            start <= i <= n,
            n == s@.len(),
            forall|j: int| start <= j < i ==> s@[j] != d,
            split_on(s@, d) == fields.deep_view() + split_on(s@.skip(start as int), d),
        decreases n - i,
    {
        let c = s.get_char(i);
        if c == d {
            let field = s.substring_char(start, i).to_owned();
            let ghost pre = fields.deep_view();
            fields.push(field);
            proof {
                let t = s@.subrange(start as int, i as int);
                let u = s@.skip(i as int + 1);
                assert(s@.skip(start as int) =~= t + seq![d] + u);
                lemma_split_on_first(t, u, d);
                assert(fields.deep_view() =~= pre + seq![t]);
                assert(pre + (seq![t] + split_on(u, d)) =~= (pre + seq![t]) + split_on(u, d));
            }
            start = i + 1;
        }
        i += 1;
    }
    let last = s.substring_char(start, n).to_owned();
    let ghost pre = fields.deep_view();
    fields.push(last);
    proof {
        lemma_split_on_whole(s@.skip(start as int), d);
        assert(fields.deep_view() =~= pre + seq![s@.skip(start as int)]);
    }
    fields
}

} // verus!
