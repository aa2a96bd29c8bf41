//! Text operations on strings, stated over their sequences of characters.
use vstd::prelude::*;
use vstd::string::*;

verus! {

/// The characters with the Unicode `White_Space` property, which `char::is_whitespace`
/// and `str::trim` treat as white space.
pub open spec fn is_white_space(c: char) -> bool {
    let u = c as u32;
    ||| 0x09 <= u <= 0x0d
    ||| u == 0x20
    ||| u == 0x85
    ||| u == 0xa0
    ||| u == 0x1680
    ||| 0x2000 <= u <= 0x200a
    ||| u == 0x2028
    ||| u == 0x2029
    ||| u == 0x202f
    ||| u == 0x205f
    ||| u == 0x3000
}

/// `s` with its leading and trailing white space removed.
pub open spec fn trim(s: Seq<char>) -> Seq<char>
    decreases s.len(),
{
    if s.len() == 0 {
        s
    } else if is_white_space(s[0]) {
        trim(s.drop_first())
    } else if is_white_space(s.last()) {
        trim(s.drop_last())
    } else {
        s
    }
}

/// Trimmed text starts and ends with a character that is not white space.
pub proof fn lemma_trim_ends(s: Seq<char>)
    ensures
        trim(s).len() > 0 ==> !is_white_space(trim(s)[0]) && !is_white_space(trim(s).last()),
    decreases s.len(),
{
    if s.len() == 0 {
    } else if is_white_space(s[0]) {
        lemma_trim_ends(s.drop_first());
    } else if is_white_space(s.last()) {
        lemma_trim_ends(s.drop_last());
    }
}

/// Trimming trimmed text changes nothing.
pub proof fn lemma_trim_idempotent(s: Seq<char>)
    ensures
        trim(trim(s)) == trim(s),
{
    lemma_trim_ends(s);
}

/// Whether `c` is white space in the sense of `char::is_whitespace`.
pub fn is_white_space_char(c: char) -> (r: bool)
    ensures
        r == is_white_space(c),
{
    let u = c as u32;
    (0x09 <= u && u <= 0x0d) || u == 0x20 || u == 0x85 || u == 0xa0 || u == 0x1680 || (0x2000
        <= u && u <= 0x200a) || u == 0x2028 || u == 0x2029 || u == 0x202f || u == 0x205f || u
        == 0x3000
}

/// The characters of `s`, one by one.
pub fn chars_of(s: &str) -> (r: Vec<char>)
    ensures
        r@ == s@,
{
    let n = s.unicode_len();
    let mut r: Vec<char> = Vec::new();
    let mut i: usize = 0;
    while i < n
        invariant
            n == s@.len(),
            i <= n,
            r@ == s@.subrange(0, i as int),
        decreases n - i,
    {
        let c = s.get_char(i);
        r.push(c);
        i = i + 1;
        assert(r@ =~= s@.subrange(0, i as int));
    }
    assert(r@ =~= s@);
    r
}

/// The characters of `s` from position `from` up to, not including, position `to`.
pub fn substring(s: &str, from: usize, to: usize) -> (r: String)
    requires
        from <= to <= s@.len(),
    ensures
        r@ == s@.subrange(from as int, to as int),
{
    String::from_str(s.substring_char(from, to))
}

/// `s` with its leading and trailing white space removed, as `str::trim` does.
pub fn trim_str(s: &str) -> (r: String)
    ensures
        r@ == trim(s@),
{
    let cs = chars_of(s);
    let n = cs.len();
    let mut i: usize = 0;
    assert(s@.subrange(0, n as int) =~= s@);
    while i < n && is_white_space_char(cs[i])
        invariant
            cs@ == s@,
            n == cs.len(),
            i <= n,
            trim(s@) == trim(s@.subrange(i as int, n as int)),
        decreases n - i,
    {
        let ghost t = s@.subrange(i as int, n as int);
        assert(t.drop_first() =~= s@.subrange(i + 1, n as int));
        i = i + 1;
    }
    let mut j: usize = n;
    while j > i && is_white_space_char(cs[j - 1])
        invariant
            cs@ == s@,
            n == cs.len(),
            i <= j <= n,
            i < n ==> !is_white_space(s@[i as int]),
            trim(s@) == trim(s@.subrange(i as int, j as int)),
        decreases j - i,
    {
        let ghost t = s@.subrange(i as int, j as int);
        assert(t.drop_last() =~= s@.subrange(i as int, j - 1));
        j = j - 1;
    }
    substring(s, i, j)
}

/// What `str::replace` gives: the matches of `pat` in `s` at or after position `i`, found from
/// left to right without overlap, each replaced by `to`.
pub open spec fn replace_from(s: Seq<char>, pat: Seq<char>, to: Seq<char>, i: int) -> Seq<char>
    decreases s.len() - i,
{
    if pat.len() == 0 || i + pat.len() > s.len() {
        s.subrange(i, s.len() as int)
    } else if s.subrange(i, i + pat.len()) == pat {
        to + replace_from(s, pat, to, i + pat.len())
    } else {
        seq![s[i]] + replace_from(s, pat, to, i + 1)
    }
}

/// `s` with every match of the non-empty `pat`, found from left to right without overlap,
/// replaced by `to`.
pub open spec fn replace_all(s: Seq<char>, pat: Seq<char>, to: Seq<char>) -> Seq<char> {
    replace_from(s, pat, to, 0)
}

/// The pieces of `s` between the matches of `sep` at or after position `i`, the first piece
/// starting at position `start`, as `str::split` gives them.
pub open spec fn split_from(s: Seq<char>, sep: Seq<char>, start: int, i: int) -> Seq<Seq<char>>
    decreases s.len() - i,
{
    if sep.len() == 0 || i + sep.len() > s.len() {
        seq![s.subrange(start, s.len() as int)]
    } else if s.subrange(i, i + sep.len()) == sep {
        seq![s.subrange(start, i)] + split_from(s, sep, i + sep.len(), i + sep.len())
    } else {
        split_from(s, sep, start, i + 1)
    }
}

/// The pieces of `s` between the matches of the non-empty `sep`, found from left to right
/// without overlap; empty pieces included.
pub open spec fn split(s: Seq<char>, sep: Seq<char>) -> Seq<Seq<char>> {
    split_from(s, sep, 0, 0)
}

/// The pieces joined with `sep` between each two of them.
pub open spec fn join(parts: Seq<Seq<char>>, sep: Seq<char>) -> Seq<char>
    decreases parts.len(),
{
    if parts.len() == 0 {
        seq![]
    } else if parts.len() == 1 {
        parts[0]
    } else {
        join(parts.drop_last(), sep) + sep + parts.last()
    }
}

/// Splitting always gives at least one piece.
pub proof fn lemma_split_from_nonempty(s: Seq<char>, sep: Seq<char>, start: int, i: int)
    ensures
        split_from(s, sep, start, i).len() >= 1,
    decreases s.len() - i,
{
    if sep.len() == 0 || i + sep.len() > s.len() {
    } else if s.subrange(i, i + sep.len()) == sep {
        lemma_split_from_nonempty(s, sep, i + sep.len(), i + sep.len());
    } else {
        lemma_split_from_nonempty(s, sep, start, i + 1);
    }
}

/// Joining a piece in front of other pieces puts the separator between them.
pub proof fn lemma_join_prepend(a: Seq<char>, rest: Seq<Seq<char>>, sep: Seq<char>)
    requires
        rest.len() >= 1,
    ensures
        join(seq![a] + rest, sep) == a + sep + join(rest, sep),
    decreases rest.len(),
{
    let all = seq![a] + rest;
    if rest.len() == 1 {
        assert(all.drop_last() =~= seq![a]);
        assert(all.last() == rest[0]);
        assert(join(seq![a], sep) == a);
        assert(join(rest, sep) == rest[0]);
        assert(join(all, sep) == join(all.drop_last(), sep) + sep + all.last());
    } else {
        assert(all.drop_last() =~= seq![a] + rest.drop_last());
        lemma_join_prepend(a, rest.drop_last(), sep);
        assert(all.last() == rest.last());
        assert(join(all, sep) == join(all.drop_last(), sep) + sep + all.last());
        assert(join(rest, sep) == join(rest.drop_last(), sep) + sep + rest.last());
        assert(join(all, sep) =~= a + sep + join(rest, sep));
    }
}

/// The pieces from `start` on, joined again with the separator, give back the text from
/// `start` on.
pub proof fn lemma_join_split_from(s: Seq<char>, sep: Seq<char>, start: int, i: int)
    requires
        sep.len() > 0,
        0 <= start <= i <= s.len(),
    ensures
        join(split_from(s, sep, start, i), sep) == s.subrange(start, s.len() as int),
    decreases s.len() - i,
{
    if i + sep.len() > s.len() {
    } else if s.subrange(i, i + sep.len()) == sep {
        let p = sep.len();
        lemma_join_split_from(s, sep, i + p, i + p);
        lemma_split_from_nonempty(s, sep, i + p, i + p);
        lemma_join_prepend(s.subrange(start, i), split_from(s, sep, i + p, i + p), sep);
        assert(s.subrange(start, i) + sep + s.subrange(i + p, s.len() as int) =~= s.subrange(start, s.len() as int));
    } else {
        lemma_join_split_from(s, sep, start, i + 1);
    }
}

/// Joining the pieces of a text split on a non-empty separator with that separator gives back
/// the text.
pub proof fn lemma_join_split(s: Seq<char>, sep: Seq<char>)
    requires
        sep.len() > 0,
    ensures
        join(split(s, sep), sep) == s,
{
    lemma_join_split_from(s, sep, 0, 0);
    assert(s.subrange(0, s.len() as int) =~= s);
}

/// The views of a sequence of strings.
pub open spec fn views(v: Seq<String>) -> Seq<Seq<char>> {
    v.map_values(|p: String| p@)
}

/// The views of optional strings.
pub open spec fn opt_views(v: Seq<Option<String>>) -> Seq<Option<Seq<char>>> {
    v.map_values(|o: Option<String>| opt_view(o))
}

/// The view of an optional string.
pub open spec fn opt_view(o: Option<String>) -> Option<Seq<char>> {
    match o {
        Some(s) => Some(s@),
        None => None,
    }
}

/// Whether `pat` occurs in `cs` at position `i`.
fn matches_at(cs: &Vec<char>, pat: &Vec<char>, i: usize) -> (r: bool)
    requires
        i + pat@.len() <= cs@.len(),
    ensures
        r == (cs@.subrange(i as int, i + pat@.len()) == pat@),
{
    let cl = cs.len();
    let mut k: usize = 0;
    while k < pat.len()
        invariant
            cl == cs@.len(),
            i + pat@.len() <= cs@.len(),
            k <= pat@.len(),
            forall|m: int| 0 <= m < k ==> cs@[i + m] == pat@[m],
        decreases pat@.len() - k,
    {
        if cs[i + k] != pat[k] {
            assert(cs@.subrange(i as int, i + pat@.len())[k as int] != pat@[k as int]);
            return false;
        }
        k = k + 1;
    }
    assert(cs@.subrange(i as int, i + pat@.len()) =~= pat@);
    true
}

/// `s` with every match of `pat` replaced by `to`, as `str::replace` does.
pub fn replace_str(s: &str, pat: &str, to: &str) -> (r: String)
    requires
        pat@.len() > 0,
    ensures
        r@ == replace_all(s@, pat@, to@),
{
    let cs = chars_of(s);
    let ps = chars_of(pat);
    let n = cs.len();
    let p = ps.len();
    let mut r = String::new();
    let mut i: usize = 0;
    while p <= n - i
        invariant
            cs@ == s@,
            ps@ == pat@,
            n == s@.len(),
            p == pat@.len(),
            p > 0,
            i <= n,
            r@ + replace_from(s@, pat@, to@, i as int) == replace_all(s@, pat@, to@),
        decreases n - i,
    {
        if matches_at(&cs, &ps, i) {
            let ghost old_r = r@;
            r.append(to);
            assert(r@ + replace_from(s@, pat@, to@, i + p) =~= old_r + replace_from(
                s@,
                pat@,
                to@,
                i as int,
            ));
            i = i + p;
        } else {
            let ghost old_r = r@;
            let one = substring(s, i, i + 1);
            r.append(one.as_str());
            assert(one@ =~= seq![s@[i as int]]);
            assert(r@ + replace_from(s@, pat@, to@, i + 1) =~= old_r + replace_from(
                s@,
                pat@,
                to@,
                i as int,
            ));
            i = i + 1;
        }
    }
    let rest = substring(s, i, n);
    r.append(rest.as_str());
    r
}

/// The pieces of `s` between the matches of `sep`, as `str::split` gives them.
pub fn split_str(s: &str, sep: &str) -> (r: Vec<String>)
    requires
        sep@.len() > 0,
    ensures
        views(r@) == split(s@, sep@),
{
    let cs = chars_of(s);
    let ps = chars_of(sep);
    let n = cs.len();
    let p = ps.len();
    let mut r: Vec<String> = Vec::new();
    let mut start: usize = 0;
    let mut i: usize = 0;
    while p <= n - i
        invariant
            cs@ == s@,
            ps@ == sep@,
            n == s@.len(),
            p == sep@.len(),
            p > 0,
            start <= i <= n,
            views(r@) + split_from(s@, sep@, start as int, i as int) == split(s@, sep@),
        decreases n - i,
    {
        if matches_at(&cs, &ps, i) {
            let ghost old_r = views(r@);
            let piece = substring(s, start, i);
            r.push(piece);
            assert(views(r@) =~= old_r.push(piece@));
            assert(views(r@) + split_from(s@, sep@, i + p, i + p) =~= old_r + split_from(
                s@,
                sep@,
                start as int,
                i as int,
            ));
            i = i + p;
            start = i;
        } else {
            i = i + 1;
        }
    }
    let ghost old_r = views(r@);
    let piece = substring(s, start, n);
    r.push(piece);
    assert(views(r@) =~= old_r.push(piece@));
    assert(views(r@) =~= old_r + split_from(s@, sep@, start as int, i as int));
    r
}

/// The strings joined with `sep` between each two of them, as `[String]::join` does.
pub fn join_strings(parts: &Vec<String>, sep: &str) -> (r: String)
    ensures
        r@ == join(views(parts@), sep@),
{
    let mut r = String::new();
    let mut i: usize = 0;
    while i < parts.len()
        invariant
            i <= parts@.len(),
            r@ == join(views(parts@).take(i as int), sep@),
        decreases parts@.len() - i,
    {
        let ghost before = views(parts@).take(i as int);
        if i > 0 {
            r.append(sep);
        }
        r.append(parts[i].as_str());
        assert(views(parts@).take(i + 1).drop_last() =~= before);
        i = i + 1;
    }
    assert(views(parts@).take(parts@.len() as int) =~= views(parts@));
    r
}

/// `s` without its first `n` characters, as `s.chars().skip(n).collect()` gives it.
pub fn skip_chars(s: &str, n: usize) -> (r: String)
    ensures
        r@ == s@.subrange(if n <= s@.len() { n as int } else { s@.len() as int }, s@.len() as int),
{
    let len = s.unicode_len();
    let from = if n <= len { n } else { len };
    substring(s, from, len)
}

/// Names what `str::to_uppercase` returns: the Unicode upper-case mapping of each character
/// of its argument, one after the other.
pub uninterp spec fn unicode_uppercase(s: Seq<char>) -> Seq<char>;

/// Calls `str::to_uppercase`; the result is named by `unicode_uppercase`.
#[verifier::external_body]
pub(crate) fn to_uppercase(s: &str) -> (r: String)
    ensures
        r@ == unicode_uppercase(s@),
{
    s.to_uppercase()
}

/// Whether the two strings hold the same characters.
pub fn str_eq(a: &str, b: &str) -> (r: bool)
    ensures
        r == (a@ == b@),
{
    let x = String::from_str(a);
    let y = String::from_str(b);
    x == y
}

/// A copy of the optional string.
pub fn clone_opt_string(o: &Option<String>) -> (r: Option<String>)
    ensures
        opt_view(r) == opt_view(*o),
{
    match o {
        Some(s) => Some(s.clone()),
        None => None,
    }
}

/// A value whose copies look the same as it does, by its view.
pub trait CopyView: Sized + View {
    /// A copy of this value.
    fn copy_view(&self) -> (r: Self)
        ensures
            r@ == self@;
}

impl CopyView for String {
    fn copy_view(&self) -> (r: String) {
        self.clone()
    }
}

/// The views of the items of `v`, in order.
pub open spec fn item_views<T: View>(v: Seq<T>) -> Seq<T::V> {
    v.map_values(|x: T| x@)
}

/// A copy of the items, each looking as the original does.
pub fn copy_vec<T: CopyView>(v: &Vec<T>) -> (r: Vec<T>)
    ensures
        item_views(r@) == item_views(v@),
{
    let mut r: Vec<T> = Vec::new();
    let mut i: usize = 0;
    while i < v.len()
        invariant
            i <= v@.len(),
            item_views(r@) == item_views(v@).take(i as int),
        decreases v@.len() - i,
    {
        let c = v[i].copy_view();
        let ghost before = r@;
        r.push(c);
        assert(item_views(before).len() == i);
        assert(r@ =~= before.push(c));
        assert(item_views(r@) =~= item_views(v@).take(i + 1)) by {
            assert forall|j: int| 0 <= j < i + 1 implies item_views(r@)[j] == item_views(v@).take(i + 1)[j] by {
                if j < i {
                    assert(item_views(before)[j] == item_views(v@).take(i as int)[j]);
                    assert(r@[j] == before[j]);
                } else {
                    assert(r@[j] == c);
                }
            }
        }
        i = i + 1;
    }
    assert(item_views(v@).take(v@.len() as int) =~= item_views(v@));
    r
}

/// A copy of the strings.
pub fn clone_strings(v: &Vec<String>) -> (r: Vec<String>)
    ensures
        views(r@) == views(v@),
{
    let r = copy_vec(v);
    assert(views(r@) =~= item_views(r@));
    assert(views(v@) =~= item_views(v@));
    r
}

/// Whether the two optional strings are both absent or both hold the same characters.
pub fn opt_string_eq(a: &Option<String>, b: &Option<String>) -> (r: bool)
    ensures
        r == (opt_view(*a) == opt_view(*b)),
{
    match (a, b) {
        (Some(x), Some(y)) => *x == *y,
        (None, None) => true,
        _ => false,
    }
}

/// Whether the two lists hold the same strings in the same order.
pub fn strings_eq(a: &Vec<String>, b: &Vec<String>) -> (r: bool)
    ensures
        r == (views(a@) == views(b@)),
{
    if a.len() != b.len() {
        assert(views(a@).len() != views(b@).len());
        return false;
    }
    let mut i: usize = 0;
    while i < a.len()
        invariant
            a@.len() == b@.len(),
            i <= a@.len(),
            forall|j: int| 0 <= j < i ==> a@[j]@ == b@[j]@,
        decreases a@.len() - i,
    {
        if a[i] != b[i] {
            assert(views(a@)[i as int] != views(b@)[i as int]);
            return false;
        }
        i = i + 1;
    }
    assert(views(a@) =~= views(b@));
    true
}

/// The decimal digit for `d`, from 0 to 9.
pub open spec fn digit_char(d: int) -> char {
    "0123456789"@[d]
}

/// The decimal digits of `n`, without leading zeros.
pub open spec fn digits(n: nat) -> Seq<char>
    decreases n,
{
    if n < 10 {
        seq![digit_char(n as int)]
    } else {
        digits(n / 10).push(digit_char((n % 10) as int))
    }
}

/// The decimal text of `n`, as `i64`'s `Display` writes it.
pub open spec fn decimal_text(n: int) -> Seq<char> {
    if n < 0 {
        seq!['-'] + digits((-n) as nat)
    } else {
        digits(n as nat)
    }
}

/// The decimal text of `n`.
pub fn decimal_string(n: i64) -> (r: String)
    ensures
        r@ == decimal_text(n as int),
{
    proof {
        reveal_strlit("0123456789");
        reveal_strlit("-");
    }
    let table = "0123456789";
    let magnitude: u64 = if n < 0 {
        (0i128 - (n as i128)) as u64
    } else {
        n as u64
    };
    let ghost whole = magnitude as nat;
    let mut m: u64 = magnitude;
    let mut r = String::new();
    if m == 0 {
        r = substring(table, 0, 1);
        assert(r@ =~= digits(0));
    } else {
        while m > 0
            invariant
                table@ == "0123456789"@,
                table@.len() == 10,
                digits(whole) == (if m > 0 { digits(m as nat) } else { seq![] }) + r@,
            decreases m,
        {
            let d = (m % 10) as usize;
            let one = substring(table, d, d + 1);
            assert(one@ =~= seq![digit_char(d as int)]);
            let ghost before = r@;
            r = one.concat(r.as_str());
            if m < 10 {
                assert(digits(m as nat) =~= seq![digit_char(m as int)]);
                assert(digits(whole) =~= seq![] + r@);
            } else {
                assert(digits(m as nat) =~= digits((m / 10) as nat).push(digit_char((m % 10) as int)));
                assert(digits(whole) =~= digits((m / 10) as nat) + r@);
            }
            m = m / 10;
        }
        assert(digits(whole) =~= r@);
    }
    if n < 0 {
        let minus = String::from_str("-");
        let out = minus.concat(r.as_str());
        assert(out@ =~= seq!['-'] + digits(whole));
        out
    } else {
        r
    }
}

} // verus!
