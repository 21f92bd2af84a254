//! Verified helpers over strings and vectors: decimal rendering, zero
//! padding, path component splitting, basenames and character replacement.

use vstd::prelude::*;

verus! {

/// Relies on `String: FromIterator<char>` (via `Iterator::collect`): the
/// collected string holds exactly the characters of the vector, in order.
#[verifier::external_body]
pub fn chars_to_string(v: &Vec<char>) -> (s: String)
    ensures
        s@ == v@,
{
    v.iter().collect()
}

/// The decimal digit for a value below ten.
pub open spec fn spec_dec_digit(d: int) -> char {
    if d == 0 {
        '0'
    } else if d == 1 {
        '1'
    } else if d == 2 {
        '2'
    } else if d == 3 {
        '3'
    } else if d == 4 {
        '4'
    } else if d == 5 {
        '5'
    } else if d == 6 {
        '6'
    } else if d == 7 {
        '7'
    } else if d == 8 {
        '8'
    } else {
        '9'
    }
}

/// The decimal rendering of a non-negative integer, without padding and
/// without a leading zero except for zero itself.
pub open spec fn spec_dec(n: int) -> Seq<char>
    recommends
        n >= 0,
    decreases n,
{
    if n < 10 {
        seq![spec_dec_digit(n)]
    } else {
        spec_dec(n / 10).push(spec_dec_digit(n % 10))
    }
}

fn dec_digit(d: u64) -> (c: char)
    requires
        d < 10,
    ensures
        c == spec_dec_digit(d as int),
{
    if d == 0 {
        '0'
    } else if d == 1 {
        '1'
    } else if d == 2 {
        '2'
    } else if d == 3 {
        '3'
    } else if d == 4 {
        '4'
    } else if d == 5 {
        '5'
    } else if d == 6 {
        '6'
    } else if d == 7 {
        '7'
    } else if d == 8 {
        '8'
    } else {
        '9'
    }
}

/// Renders a number in decimal.
pub fn u64_to_dec(n: u64) -> (s: String)
    ensures
        s@ == spec_dec(n as int),
{
    let mut v: Vec<char> = Vec::new();
    let mut m: u64 = n;
    if m < 10 {
        v.push(dec_digit(m));
    } else {
        while m >= 10
            invariant
                m > 0,
                spec_dec(n as int) == spec_dec(m as int) + v@,
            decreases m,
        {
            let ghost prev = v@;
            let ghost mprev = m as int;
            v.insert(0, dec_digit(m % 10));
            m = m / 10;
            proof {
                assert(spec_dec(mprev) == spec_dec(mprev / 10).push(spec_dec_digit(mprev % 10)));
                assert(spec_dec(mprev / 10).push(spec_dec_digit(mprev % 10)) + prev =~= spec_dec(
                    mprev / 10,
                ) + v@);
            }
        }
        let ghost prev = v@;
        v.insert(0, dec_digit(m));
        proof {
            assert(spec_dec(m as int) + prev =~= v@);
        }
    }
    chars_to_string(&v)
}

/// A number in decimal, zero-padded on the left to at least two digits.
pub open spec fn spec_pad2(n: int) -> Seq<char>
    recommends
        n >= 0,
{
    if n < 10 {
        seq!['0'] + spec_dec(n)
    } else {
        spec_dec(n)
    }
}

/// A number in decimal, zero-padded on the left to at least four digits.
pub open spec fn spec_pad4(n: int) -> Seq<char>
    recommends
        n >= 0,
{
    if n < 10 {
        seq!['0', '0', '0'] + spec_dec(n)
    } else if n < 100 {
        seq!['0', '0'] + spec_dec(n)
    } else if n < 1000 {
        seq!['0'] + spec_dec(n)
    } else {
        spec_dec(n)
    }
}

/// Renders a number zero-padded to at least two digits.
pub fn u64_to_pad2(n: u64) -> (s: String)
    ensures
        s@ == spec_pad2(n as int),
{
    let d = u64_to_dec(n);
    if n < 10 {
        proof {
            reveal_strlit("0");
            assert("0"@ =~= seq!['0']);
        }
        String::from_str("0").concat(d.as_str())
    } else {
        d
    }
}

/// Renders a number zero-padded to at least four digits.
pub fn u64_to_pad4(n: u64) -> (s: String)
    ensures
        s@ == spec_pad4(n as int),
{
    let d = u64_to_dec(n);
    if n < 10 {
        proof {
            reveal_strlit("000");
            assert("000"@ =~= seq!['0', '0', '0']);
        }
        String::from_str("000").concat(d.as_str())
    } else if n < 100 {
        proof {
            reveal_strlit("00");
            assert("00"@ =~= seq!['0', '0']);
        }
        String::from_str("00").concat(d.as_str())
    } else if n < 1000 {
        proof {
            reveal_strlit("0");
            assert("0"@ =~= seq!['0']);
        }
        String::from_str("0").concat(d.as_str())
    } else {
        d
    }
}

/// Whether two strings hold the same characters.
pub fn string_eq(a: &String, b: &String) -> (r: bool)
    ensures
        r == (a@ == b@),
{
    a.eq(b)
}

/// The views of the strings in a vector.
pub open spec fn views_of(v: Seq<String>) -> Seq<Seq<char>> {
    v.map_values(|s: String| s@)
}

/// Whether a vector of strings holds a given string.
pub fn vec_str_contains(v: &Vec<String>, x: &String) -> (r: bool)
    ensures
        r == views_of(v@).contains(x@),
{
    let mut i: usize = 0;
    while i < v.len()
        invariant
            i <= v.len(),
            forall|j: int| 0 <= j < i ==> views_of(v@)[j] != x@,
        decreases v.len() - i,
    {
        if string_eq(&v[i], x) {
            assert(views_of(v@)[i as int] == x@);
            return true;
        }
        i = i + 1;
    }
    false
}

/// Whether a vector holds a given index value.
pub fn contains_usize(v: &Vec<usize>, x: usize) -> (r: bool)
    ensures
        r == v@.contains(x),
{
    let mut i: usize = 0;
    while i < v.len()
        invariant
            i <= v.len(),
            forall|j: int| 0 <= j < i ==> v@[j] != x,
        decreases v.len() - i,
    {
        if v[i] == x {
            return true;
        }
        i = i + 1;
    }
    false
}

/// Strictly increasing: sorted and free of duplicates.
pub open spec fn sorted_strict(v: Seq<usize>) -> bool {
    forall|i: int, j: int| 0 <= i < j < v.len() ==> v[i] < v[j]
}

/// The elements common to two strictly increasing vectors, in order.
pub fn intersect_sorted(a: &Vec<usize>, b: &Vec<usize>) -> (r: Vec<usize>)
    requires
        sorted_strict(a@),
    ensures
        sorted_strict(r@),
        forall|x: usize| r@.contains(x) <==> a@.contains(x) && b@.contains(x),
{
    let mut r: Vec<usize> = Vec::new();
    let mut i: usize = 0;
    while i < a.len()
        invariant
            i <= a.len(),
            sorted_strict(a@),
            sorted_strict(r@),
            forall|x: usize| r@.contains(x) <==> a@.take(i as int).contains(x) && b@.contains(x),
            r@.len() > 0 ==> a@.take(i as int).contains(r@.last()),
        decreases a.len() - i,
    {
        let ghost prev = r@;
        if contains_usize(b, a[i]) {
            proof {
                if r@.len() > 0 {
                    let k = choose|k: int| 0 <= k < i && a@[k] == prev.last();
                    assert(a@[k] < a@[i as int]);
                }
            }
            r.push(a[i]);
            proof {
                assert forall|x: usize| prev.contains(x) implies r@.contains(x) by {
                    let k = choose|k: int| 0 <= k < prev.len() && prev[k] == x;
                    assert(r@[k] == x);
                }
                assert forall|x: usize| #[trigger] r@.contains(x) implies prev.contains(x) || x
                    == a@[i as int] by {
                    let k = choose|k: int| 0 <= k < r@.len() && r@[k] == x;
                    if k < prev.len() {
                        assert(prev[k] == x);
                    }
                }
                assert(a@.take(i + 1).contains(a@[i as int])) by {
                    assert(a@.take(i + 1)[i as int] == a@[i as int]);
                }
            }
        }
        proof {
            assert(forall|x: usize| #[trigger]
                a@.take(i + 1).contains(x) ==> a@.take(i as int).contains(x) || x == a@[i as int]);
            assert(forall|x: usize| #[trigger]
                a@.take(i as int).contains(x) ==> a@.take(i + 1).contains(x));
            if r@.len() > 0 && a@.take(i as int).contains(r@.last()) {
                assert(a@.take(i + 1).contains(r@.last()));
            }
        }
        i = i + 1;
    }
    proof {
        assert(a@.take(a@.len() as int) =~= a@);
    }
    r
}

/// Copies a vector of indices.
pub fn copy_usize_vec(a: &Vec<usize>) -> (r: Vec<usize>)
    ensures
        r@ == a@,
{
    let mut r: Vec<usize> = Vec::new();
    let mut i: usize = 0;
    while i < a.len()
        invariant
            i <= a.len(),
            r@ == a@.take(i as int),
        decreases a.len() - i,
    {
        r.push(a[i]);
        proof {
            assert(a@.take(i + 1) =~= a@.take(i as int).push(a@[i as int]));
        }
        i = i + 1;
    }
    proof {
        assert(a@.take(a@.len() as int) =~= a@);
    }
    r
}

/// A signed 64-bit value reinterpreted as unsigned, as a cast would do it.
pub open spec fn wrap_u64(x: int) -> int
    recommends
        -0x8000_0000_0000_0000 <= x < 0x8000_0000_0000_0000,
{
    if x >= 0 {
        x
    } else {
        x + 0x1_0000_0000_0000_0000
    }
}

/// Reinterprets a signed 64-bit value as unsigned.
pub fn i64_to_u64_wrap(x: i64) -> (r: u64)
    ensures
        r as int == wrap_u64(x as int),
{
    if x >= 0 {
        x as u64
    } else {
        ((x as i128) + 0x1_0000_0000_0000_0000i128) as u64
    }
}

/// The low 32 bits of an unsigned 64-bit value, as a cast would keep them.
pub open spec fn low_u32(x: int) -> int
    recommends
        x >= 0,
{
    x % 0x1_0000_0000
}

/// Keeps the low 32 bits of an unsigned value.
pub fn u64_to_u32_wrap(x: u64) -> (r: u32)
    ensures
        r as int == low_u32(x as int),
{
    let low: u64 = x % 0x1_0000_0000;
    low as u32
}

/// The low 32 bits of an unsigned value reinterpreted as signed, as a cast
/// would do it.
pub open spec fn wrap_i32(x: int) -> int
    recommends
        x >= 0,
{
    let m = x % 0x1_0000_0000;
    if m < 0x8000_0000 {
        m
    } else {
        m - 0x1_0000_0000
    }
}

/// Reinterprets the low 32 bits of an unsigned value as signed.
pub fn u64_to_i32_wrap(x: u64) -> (r: i32)
    ensures
        r as int == wrap_i32(x as int),
{
    let low: u64 = x % 0x1_0000_0000;
    if low < 0x8000_0000 {
        low as i32
    } else {
        ((low as i64) - 0x1_0000_0000i64) as i32
    }
}

/// An unsigned 64-bit value reinterpreted as signed, as a cast would do it.
pub open spec fn wrap_i64(x: int) -> int
    recommends
        0 <= x < 0x1_0000_0000_0000_0000,
{
    if x < 0x8000_0000_0000_0000 {
        x
    } else {
        x - 0x1_0000_0000_0000_0000
    }
}

/// Reinterprets an unsigned 64-bit value as signed.
pub fn u64_to_i64_wrap(x: u64) -> (r: i64)
    ensures
        r as int == wrap_i64(x as int),
{
    if x < 0x8000_0000_0000_0000u64 {
        x as i64
    } else {
        ((x as i128) - 0x1_0000_0000_0000_0000i128) as i64
    }
}

/// The '/'-separated segments of a path, including empty ones; there is
/// always at least one segment.
pub open spec fn raw_split(s: Seq<char>) -> Seq<Seq<char>>
    decreases s.len(),
{
    if s.len() == 0 {
        seq![Seq::<char>::empty()]
    } else {
        let prev = raw_split(s.drop_last());
        if s.last() == '/' {
            prev.push(Seq::<char>::empty())
        } else {
            prev.update(prev.len() - 1, prev.last().push(s.last()))
        }
    }
}

pub proof fn lemma_raw_split_len(s: Seq<char>)
    ensures
        raw_split(s).len() >= 1,
    decreases s.len(),
{
    if s.len() > 0 {
        lemma_raw_split_len(s.drop_last());
    }
}

/// A normal path component: non-empty and not the current-directory name.
/// A parent reference (`..`) is deliberately kept as an ordinary name: the
/// kernel resolves parent references before a path reaches the filesystem,
/// so such a segment can only ever be asked about directly, where it
/// matches nothing — no built-in tagger emits a tag displaying as `..`
/// (labelled displays always carry the separator), and no file has it as
/// a basename.
pub open spec fn is_normal_seg(seg: Seq<char>) -> bool {
    seg.len() > 0 && seg != seq!['.']
}

/// The normal segments of a segment list, in order.
pub open spec fn keep_normal(segs: Seq<Seq<char>>) -> Seq<Seq<char>>
    decreases segs.len(),
{
    if segs.len() == 0 {
        Seq::<Seq<char>>::empty()
    } else {
        let rest = keep_normal(segs.drop_last());
        if is_normal_seg(segs.last()) {
            rest.push(segs.last())
        } else {
            rest
        }
    }
}

/// The normal components of a virtual path: the '/'-separated segments,
/// with empty segments and current-directory segments dropped.
pub open spec fn normal_components(s: Seq<char>) -> Seq<Seq<char>> {
    keep_normal(raw_split(s))
}

/// The part of a path after its last separator.
pub open spec fn spec_basename(s: Seq<char>) -> Seq<char> {
    raw_split(s).last()
}

/// Splits a path into its normal components.
pub fn path_components(path: &str) -> (r: Vec<String>)
    ensures
        views_of(r@) == normal_components(path@),
{
    let n = path.unicode_len();
    let mut comps: Vec<String> = Vec::new();
    let mut cur: Vec<char> = Vec::new();
    let ghost mut fin: Seq<Seq<char>> = Seq::empty();
    let mut i: usize = 0;
    while i < n
        invariant
            i <= n,
            n == path@.len(),
            raw_split(path@.take(i as int)) == fin.push(cur@),
            views_of(comps@) == keep_normal(fin),
        decreases n - i,
    {
        let c = path.get_char(i);
        let ghost prefix = path@.take(i as int);
        proof {
            assert(path@.take(i + 1).drop_last() =~= prefix);
            assert(path@.take(i + 1).last() == path@[i as int]);
            assert(path@.take(i + 1).len() > 0);
        }
        if c == '/' {
            proof {
                assert(raw_split(path@.take(i + 1)) == fin.push(cur@).push(Seq::<char>::empty()));
                assert(fin.push(cur@).drop_last() =~= fin);
            }
            flush_segment(&mut comps, &cur);
            proof {
                fin = fin.push(cur@);
            }
            cur = Vec::new();
        } else {
            let ghost prevfin = fin.push(cur@);
            cur.push(c);
            proof {
                assert(raw_split(path@.take(i + 1)) == prevfin.update(
                    prevfin.len() - 1,
                    prevfin.last().push(c),
                ));
                assert(prevfin.update(prevfin.len() - 1, prevfin.last().push(c)) =~= fin.push(
                    cur@,
                ));
            }
        }
        i = i + 1;
    }
    proof {
        assert(path@.take(n as int) =~= path@);
        assert(fin.push(cur@).drop_last() =~= fin);
    }
    flush_segment(&mut comps, &cur);
    comps
}

/// Appends a finished segment to the component list if it is normal.
fn flush_segment(comps: &mut Vec<String>, cur: &Vec<char>)
    ensures
        views_of(final(comps)@) == if is_normal_seg(cur@) {
            views_of(old(comps)@).push(cur@)
        } else {
            views_of(old(comps)@)
        },
{
    proof {
        assert(cur@ == seq!['.'] ==> cur@.len() == 1 && cur@[0] == '.');
        if cur@.len() == 1 && cur@[0] == '.' {
            assert(cur@ =~= seq!['.']);
        }
    }
    if cur.len() == 0 {
        return ;
    }
    if cur.len() == 1 && cur[0] == '.' {
        return ;
    }
    let s = chars_to_string(cur);
    let ghost prev = comps@;
    comps.push(s);
    proof {
        assert(views_of(comps@) =~= views_of(prev).push(cur@));
    }
}

/// The basename of a path: everything after the last separator.
pub fn basename(path: &str) -> (r: String)
    ensures
        r@ == spec_basename(path@),
{
    let n = path.unicode_len();
    let mut cur: Vec<char> = Vec::new();
    let mut i: usize = 0;
    while i < n
        invariant
            i <= n,
            n == path@.len(),
            cur@ == raw_split(path@.take(i as int)).last(),
        decreases n - i,
    {
        let c = path.get_char(i);
        proof {
            assert(path@.take(i + 1).drop_last() =~= path@.take(i as int));
            assert(path@.take(i + 1).last() == path@[i as int]);
            assert(path@.take(i + 1).len() > 0);
            lemma_raw_split_len(path@.take(i as int));
        }
        if c == '/' {
            cur = Vec::new();
        } else {
            cur.push(c);
        }
        i = i + 1;
    }
    proof {
        assert(path@.take(n as int) =~= path@);
    }
    chars_to_string(&cur)
}

/// A copy of a string with every occurrence of one character replaced by
/// another.
pub fn replace_char(s: &str, from: char, to: char) -> (r: String)
    ensures
        r@ == s@.map_values(|c: char| if c == from { to } else { c }),
{
    let n = s.unicode_len();
    let mut out: Vec<char> = Vec::new();
    let mut i: usize = 0;
    while i < n
        invariant
            i <= n,
            n == s@.len(),
            out@ == s@.take(i as int).map_values(|c: char| if c == from { to } else { c }),
        decreases n - i,
    {
        let c = s.get_char(i);
        if c == from {
            out.push(to);
        } else {
            out.push(c);
        }
        proof {
            assert(s@.take(i + 1).map_values(|c: char| if c == from { to } else { c }) =~= s@.take(
                i as int,
            ).map_values(|c: char| if c == from { to } else { c }).push(
                if s@[i as int] == from {
                    to
                } else {
                    s@[i as int]
                },
            ));
        }
        i = i + 1;
    }
    proof {
        assert(s@.take(n as int) =~= s@);
    }
    chars_to_string(&out)
}

} // verus!
