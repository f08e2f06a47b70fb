//! How numbers, texts and paths are read and written.

use crate::path;
use crate::text;
use vstd::prelude::*;

verus! {

/// What a digit counts, if it is one of this many digits.
pub open spec fn counts(b: u8, radix: nat) -> Option<int> {
    if 0x30 <= b <= 0x39 && b - 0x30 < radix {
        Some(b - 0x30)
    } else if 0x41 <= b <= 0x5a && b - 0x41 + 10 < radix {
        Some(b - 0x41 + 10)
    } else if 0x61 <= b <= 0x7a && b - 0x61 + 10 < radix {
        Some(b - 0x61 + 10)
    } else {
        None
    }
}

/// One digit more multiplies a number by the radix and adds the digit. What is no
/// digit ends it, and so does a number that is too large.
pub proof fn law_digits_count(acc: nat, s: Seq<u8>, b: u8, radix: nat, max: nat)
    requires
        radix <= 36,
    ensures
        text::number_from(acc, s.push(b), radix, max) == match text::number_from(
            acc,
            s,
            radix,
            max,
        ) {
            None => None,
            Some(n) => match counts(b, radix) {
                None => None,
                Some(d) => if n * radix + d > max {
                    None
                } else {
                    Some((n * radix + d) as nat)
                },
            },
        },
    decreases s.len(),
{
    let t = s.push(b);
    if s.len() == 0 {
        assert(t[0] == b);
        assert(t.skip(1) =~= Seq::<u8>::empty());
        reveal_with_fuel(text::number_from, 2);
        assert(acc * radix >= 0) by (nonlinear_arith);
    } else {
        assert(t[0] == s[0]);
        assert(t.skip(1) =~= s.skip(1).push(b));
        if text::digit_value(s[0]) < radix && acc * radix + text::digit_value(s[0]) <= max {
            law_digits_count(
                acc * radix + text::digit_value(s[0]),
                s.skip(1),
                b,
                radix,
                max,
            );
        }
    }
}

/// A number by its hexadecimal digits.
pub proof fn lemma_hex(n: nat, max: nat)
    requires
        n <= max,
    ensures
        text::hex(n).len() > 0,
        text::number_from(0, text::ascii_codes(text::hex(n)), 16, max) == Some(n),
        counts(text::ascii_codes(text::hex(n))[0], 16) is Some,
    decreases n,
{
    let s = text::ascii_codes(text::hex(n));
    let none = Seq::<u8>::empty();
    if n < 16 {
        let d = text::ascii_codes(text::hex(n))[0];
        assert(s =~= none.push(d));
        assert(text::number_from(0, none, 16, max) == Some(0nat));
        law_digits_count(0, none, d, 16, max);
    } else {
        lemma_hex(n / 16, max);
        let rest = text::ascii_codes(text::hex(n / 16));
        let c = text::digit(n % 16);
        let d = c as u8;
        assert(s =~= rest.push(d));
        assert(counts(d, 16) == Some((n % 16) as int));
        law_digits_count(0, rest, d, 16, max);
        assert(s[0] == rest[0]);
    }
}

/// A number that was written with hexadecimal digits reads as that number.
pub proof fn law_hex_reads_back(n: nat, max: nat)
    requires
        n <= max,
    ensures
        text::number(text::ascii_codes(text::hex(n)), 16, max) == Some(n),
{
    lemma_hex(n, max);
}

proof fn lemma_start(a: Seq<char>, t: Seq<char>)
    requires
        forall|i: int| 0 <= i < a.len() ==> text::is_white(#[trigger] a[i]),
        t.len() == 0 || !text::is_white(t[0]),
    ensures
        text::trimmed_start(a + t) == t,
    decreases a.len(),
{
    if a.len() > 0 {
        assert((a + t)[0] == a[0]);
        assert((a + t).skip(1) =~= a.skip(1) + t);
        assert forall|i: int| 0 <= i < a.skip(1).len() implies text::is_white(
            #[trigger] a.skip(1)[i],
        ) by {
            assert(a.skip(1)[i] == a[i + 1]);
        }
        lemma_start(a.skip(1), t);
    } else {
        assert(a + t =~= t);
    }
}

proof fn lemma_end(t: Seq<char>, b: Seq<char>)
    requires
        forall|i: int| 0 <= i < b.len() ==> text::is_white(#[trigger] b[i]),
        t.len() == 0 || !text::is_white(t.last()),
    ensures
        text::trimmed_end(t + b) == t,
    decreases b.len(),
{
    if b.len() > 0 {
        assert((t + b).last() == b[b.len() - 1]);
        assert((t + b).drop_last() =~= t + b.drop_last());
        assert forall|i: int| 0 <= i < b.drop_last().len() implies text::is_white(
            #[trigger] b.drop_last()[i],
        ) by {
            assert(b.drop_last()[i] == b[i]);
        }
        lemma_end(t, b.drop_last());
    } else {
        assert(t + b =~= t);
    }
}

/// White space around a text is dropped, and nothing else.
pub proof fn law_white_space_is_trimmed(a: Seq<char>, t: Seq<char>, b: Seq<char>)
    requires
        forall|i: int| 0 <= i < a.len() ==> text::is_white(#[trigger] a[i]),
        forall|i: int| 0 <= i < b.len() ==> text::is_white(#[trigger] b[i]),
        t.len() > 0,
        !text::is_white(t[0]),
        !text::is_white(t.last()),
    ensures
        text::trimmed(a + t + b) == t,
{
    assert(a + t + b =~= a + (t + b));
    assert((t + b)[0] == t[0]);
    lemma_start(a, t + b);
    lemma_end(t, b);
}

/// Whether bytes are the name of a file: no slash, and not one of the two names for
/// a directory itself and the one above it.
pub open spec fn is_name(n: Seq<u8>) -> bool {
    &&& n.len() > 0
    &&& forall|i: int| 0 <= i < n.len() ==> #[trigger] n[i] != 0x2f
    &&& n != seq![0x2eu8]
    &&& n != seq![0x2eu8, 0x2e]
}

proof fn lemma_slash(p: Seq<u8>, i: int, k: int)
    requires
        0 <= i <= k <= p.len(),
        k < p.len() ==> p[k] == 0x2f,
    ensures
        i <= path::slash_from(p, i) <= k,
        path::slash_from(p, i) < p.len() ==> p[path::slash_from(p, i)] == 0x2f,
        forall|j: int| i <= j < path::slash_from(p, i) ==> #[trigger] p[j] != 0x2f,
    decreases k - i,
{
    if i < k && p[i] != 0x2f {
        lemma_slash(p, i + 1, k);
    }
}

proof fn lemma_last(a: Seq<u8>, name: Seq<u8>, i: int)
    requires
        is_name(name),
        0 <= i <= a.len() + 1,
    ensures
        ({
            let parts = path::components_from(a.push(0x2f) + name, i);
            parts.len() > 0 && parts.last() == name
        }),
    decreases a.len() + 1 - i,
{
    let p = a.push(0x2f) + name;
    let n = a.len() as int;
    assert(p[n] == 0x2f);
    if i == n + 1 {
        lemma_slash(p, i, p.len() as int);
        let j = path::slash_from(p, i);
        if j < p.len() {
            assert(p[j] == name[j - n - 1]);
        }
        assert(p.subrange(i, j) =~= name);
        assert(path::components_from(p, p.len() as int + 1) =~= Seq::<Seq<u8>>::empty());
        assert(path::components_from(p, i) =~= seq![name]);
    } else {
        lemma_slash(p, i, n);
        let j = path::slash_from(p, i);
        lemma_last(a, name, j + 1);
        let rest = path::components_from(p, j + 1);
        let parts = path::components_from(p, i);
        assert(parts.last() == rest.last());
    }
}

/// The last part of a path is its file name.
pub proof fn law_file_name(a: Seq<u8>, name: Seq<u8>)
    requires
        is_name(name),
    ensures
        path::file_name(a.push(0x2f) + name) == Some(name),
{
    lemma_last(a, name, 0);
}

/// A name joined to a directory is the name of a file in it.
pub proof fn law_joined_names(base: Seq<u8>, name: Seq<u8>)
    requires
        is_name(name),
        base.len() > 0,
    ensures
        path::file_name(path::joined(base, name)) == Some(name),
        path::joined(base, name).take(base.len() as int) == base,
        path::joined(base, name).len() == base.len() + name.len() + if base.last() == 0x2f {
            0int
        } else {
            1
        },
{
    assert(name[0] != 0x2f);
    if base.last() == 0x2f {
        let a = base.drop_last();
        assert(a.push(0x2f) =~= base);
        law_file_name(a, name);
    } else {
        law_file_name(base, name);
    }
    assert(path::joined(base, name).take(base.len() as int) =~= base);
}

proof fn lemma_trailing(a: Seq<u8>, i: int)
    requires
        0 <= i,
    ensures
        path::components_from(a.push(0x2f), i) == path::components_from(a, i),
    decreases a.len() + 1 - i,
{
    let p = a.push(0x2f);
    let n = a.len() as int;
    if i < n {
        lemma_slash(p, i, n);
        lemma_slash(a, i, n);
        let j = path::slash_from(p, i);
        let k = path::slash_from(a, i);
        if j < k {
            assert(a[j] == p[j]);
        } else if k < j {
            assert(p[k] == a[k]);
        }
        assert(p.subrange(i, j) =~= a.subrange(i, k));
        lemma_trailing(a, j + 1);
    } else if i == n {
        lemma_slash(p, n, n);
        assert(p.subrange(n, n).len() == 0);
        assert(path::components_from(p, n + 1) =~= Seq::<Seq<u8>>::empty());
    }
}

/// A slash behind a path changes nothing of what it names.
pub proof fn law_trailing_slash(a: Seq<u8>)
    requires
        a.len() > 0,
    ensures
        path::same_path(a.push(0x2f), a),
{
    lemma_trailing(a, 0);
}

} // verus!
