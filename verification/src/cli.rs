//! Decisions of the command-line program that do not touch the outside
//! world: where a named simulation is stored, what an HTTP request for the
//! live view asks for, and which frames an export writes.
use vstd::prelude::*;
use crate::assets::icons::{char_views, copy_range, lines, lines_of};
use crate::text::{chars_of, push_char, push_str, dec};

verus! {

/// A character allowed in a simulation name.
pub open spec fn name_char(c: char) -> bool {
    ('a' <= c <= 'z') || ('A' <= c <= 'Z') || ('0' <= c <= '9') || c == '-' || c == '_'
}

/// A simulation name that stays inside the `sims` directory: non-empty,
/// made of ASCII letters, digits, `-` and `_`.
pub open spec fn valid_name(name: Seq<char>) -> bool {
    name.len() > 0 && forall|i: int| 0 <= i < name.len() ==> name_char(#[trigger] name[i])
}

/// The file that holds the simulation `name`: `sims/<name>.json`, or `None`
/// for a name that could leave the directory.
pub fn sim_path(name: &str) -> (r: Option<String>)
    ensures
        match r {
            Some(p) => valid_name(name@) && p@ == seq!['s', 'i', 'm', 's', '/'] + name@ + seq!['.', 'j', 's', 'o', 'n'],
            None => !valid_name(name@),
        },
{
    let cs = chars_of(name);
    if cs.len() == 0 {
        return None;
    }
    let mut i: usize = 0;
    while i < cs.len()
        invariant
            i <= cs@.len(),
            cs@ == name@,
            forall|k: int| 0 <= k < i ==> name_char(#[trigger] cs@[k]),
        decreases cs@.len() - i,
    {
        let c = cs[i];
        if !(('a' <= c && c <= 'z') || ('A' <= c && c <= 'Z') || ('0' <= c && c <= '9') || c == '-' || c == '_') {
            assert(!name_char(name@[i as int]));
            return None;
        }
        i = i + 1;
    }
    let mut p = String::new();
    push_char(&mut p, 's');
    push_char(&mut p, 'i');
    push_char(&mut p, 'm');
    push_char(&mut p, 's');
    push_char(&mut p, '/');
    push_str(&mut p, name);
    push_char(&mut p, '.');
    push_char(&mut p, 'j');
    push_char(&mut p, 's');
    push_char(&mut p, 'o');
    push_char(&mut p, 'n');
    assert(p@ =~= seq!['s', 'i', 'm', 's', '/'] + name@ + seq!['.', 'j', 's', 'o', 'n']);
    Some(p)
}

/// Unicode `White_Space`, the separators of `str::split_whitespace`.
pub open spec fn is_white(c: char) -> bool {
    let u = c as u32;
    (0x9 <= u <= 0xd) || u == 0x20 || u == 0x85 || u == 0xa0 || u == 0x1680 || (0x2000 <= u <= 0x200a)
        || u == 0x2028 || u == 0x2029 || u == 0x202f || u == 0x205f || u == 0x3000
}

fn white(c: char) -> (r: bool)
    ensures
        r == is_white(c),
{
    let u = c as u32;
    (0x9 <= u && u <= 0xd) || u == 0x20 || u == 0x85 || u == 0xa0 || u == 0x1680 || (0x2000 <= u && u <= 0x200a)
        || u == 0x2028 || u == 0x2029 || u == 0x202f || u == 0x205f || u == 0x3000
}

/// First position at or after `i` whose whiteness is `w`, or the length.
pub open spec fn first_white(s: Seq<char>, w: bool, i: int) -> int
    decreases s.len() - i,
{
    if i < 0 || i >= s.len() {
        s.len() as int
    } else if is_white(s[i]) == w {
        i
    } else {
        first_white(s, w, i + 1)
    }
}

pub proof fn lemma_first_white(s: Seq<char>, w: bool, i: int)
    requires
        0 <= i <= s.len(),
    ensures
        i <= first_white(s, w, i) <= s.len(),
        first_white(s, w, i) < s.len() ==> is_white(s[first_white(s, w, i)]) == w,
        forall|k: int| i <= k < first_white(s, w, i) ==> is_white(#[trigger] s[k]) != w,
    decreases s.len() - i,
{
    if i < s.len() && is_white(s[i]) != w {
        lemma_first_white(s, w, i + 1);
    }
}

/// The words of `s` from position `i` on, as `str::split_whitespace`
/// yields them: maximal runs of non-white characters.
pub open spec fn words_from(s: Seq<char>, i: int) -> Seq<Seq<char>>
    decreases s.len() - i,
{
    let a = first_white(s, false, i);
    if i < 0 || a >= s.len() {
        seq![]
    } else {
        let b = first_white(s, true, a);
        proof {
            lemma_first_white(s, false, i);
            lemma_first_white(s, true, a);
        }
        seq![s.subrange(a, b)] + words_from(s, b)
    }
}

/// The path a request asks for: the second word of its first line, `/`
/// when there is none.
pub open spec fn request_path(req: Seq<char>) -> Seq<char> {
    let first = if lines_of(req).len() > 0 { lines_of(req)[0] } else { seq![] };
    let w = words_from(first, 0);
    if w.len() > 1 { w[1] } else { seq!['/'] }
}

fn skip_white(s: &Vec<char>, w: bool, i: usize) -> (r: usize)
    requires
        i <= s@.len(),
    ensures
        r == first_white(s@, w, i as int),
        i <= r <= s@.len(),
{
    proof {
        lemma_first_white(s@, w, i as int);
    }
    let mut k = i;
    while k < s.len() && white(s[k]) != w
        invariant
            i <= k <= s@.len(),
            first_white(s@, w, i as int) == first_white(s@, w, k as int),
        decreases s@.len() - k,
    {
        k = k + 1;
    }
    k
}

fn path_of(req: &str) -> (r: Vec<char>)
    ensures
        r@ == request_path(req@),
{
    let ls = lines(req);
    proof {
        assert(char_views(ls@).len() == ls@.len());
    }
    let first: Vec<char> = if ls.len() > 0 {
        assert(char_views(ls@)[0] == ls@[0]@);
        copy_range(&ls[0], 0, ls[0].len())
    } else {
        Vec::new()
    };
    let ghost f = first@;
    assert(f == (if lines_of(req@).len() > 0 { lines_of(req@)[0] } else { seq![] })) by {
        if ls@.len() > 0 {
            assert(first@ =~= ls@[0]@);
        }
    }
    let a0 = skip_white(&first, false, 0);
    let slash: Vec<char> = vec!['/'];
    assert(slash@ =~= seq!['/']);
    if a0 >= first.len() {
        return slash;
    }
    let b0 = skip_white(&first, true, a0);
    proof {
        lemma_first_white(f, false, 0);
        lemma_first_white(f, true, a0 as int);
        assert(words_from(f, 0) == seq![f.subrange(a0 as int, b0 as int)] + words_from(f, b0 as int));
    }
    let a1 = skip_white(&first, false, b0);
    if a1 >= first.len() {
        assert(words_from(f, b0 as int) =~= Seq::<Seq<char>>::empty());
        assert(words_from(f, 0).len() == 1);
        return slash;
    }
    let b1 = skip_white(&first, true, a1);
    proof {
        lemma_first_white(f, false, b0 as int);
        lemma_first_white(f, true, a1 as int);
        assert(words_from(f, b0 as int) == seq![f.subrange(a1 as int, b1 as int)] + words_from(f, b1 as int));
        assert(words_from(f, 0)[1] == f.subrange(a1 as int, b1 as int));
    }
    copy_range(&first, a1, b1)
}

/// Value of a string of decimal digits.
pub open spec fn digits_value(d: Seq<char>) -> int
    decreases d.len(),
{
    if d.len() == 0 {
        0
    } else {
        digits_value(d.drop_last()) * 10 + (d.last() as int - '0' as int)
    }
}

/// `str::parse::<u64>`: an optional `+`, then one or more ASCII digits
/// whose value fits in 64 bits.
pub open spec fn parse_u64(s: Seq<char>) -> Option<u64> {
    let d = unsigned_part(s);
    if d.len() > 0 && all_digits(d) && digits_value(d) <= u64::MAX {
        Some(digits_value(d) as u64)
    } else {
        None
    }
}

/// A number's text without its optional leading `+`.
pub open spec fn unsigned_part(s: Seq<char>) -> Seq<char> {
    if s.len() > 0 && s[0] == '+' { s.skip(1) } else { s }
}

/// Every character is an ASCII digit.
pub open spec fn all_digits(d: Seq<char>) -> bool {
    forall|i: int| 0 <= i < d.len() ==> '0' <= #[trigger] d[i] <= '9'
}

proof fn lemma_digits_nonneg(d: Seq<char>)
    requires
        forall|i: int| 0 <= i < d.len() ==> '0' <= #[trigger] d[i] <= '9',
    ensures
        digits_value(d) >= 0,
    decreases d.len(),
{
    if d.len() > 0 {
        lemma_digits_nonneg(d.drop_last());
    }
}

proof fn lemma_digits_grow(d: Seq<char>, k: int)
    requires
        0 <= k <= d.len(),
        forall|i: int| 0 <= i < d.len() ==> '0' <= #[trigger] d[i] <= '9',
    ensures
        digits_value(d.take(k)) <= digits_value(d),
    decreases d.len() - k,
{
    if k < d.len() {
        lemma_digits_grow(d, k + 1);
        assert(d.take(k + 1).drop_last() =~= d.take(k));
        lemma_digits_nonneg(d.take(k));
    } else {
        assert(d.take(k) =~= d);
    }
}

fn parse_number(s: &Vec<char>) -> (r: Option<u64>)
    ensures
        r == parse_u64(s@),
{
    let start: usize = if s.len() > 0 && s[0] == '+' { 1 } else { 0 };
    let ghost d = unsigned_part(s@);
    assert(d =~= s@.skip(start as int));
    if start >= s.len() {
        return None;
    }
    let mut v: u64 = 0;
    let mut i = start;
    while i < s.len()
        invariant
            start <= i <= s@.len(),
            d == unsigned_part(s@),
            d =~= s@.skip(start as int),
            forall|k: int| 0 <= k < i - start ==> '0' <= #[trigger] d[k] <= '9',
            v as int == digits_value(d.take(i - start)),
        decreases s@.len() - i,
    {
        let c = s[i];
        assert(c == d[i - start]);
        if !('0' <= c && c <= '9') {
            assert(!('0' <= d[i - start] <= '9'));
            assert(!all_digits(d));
            assert(parse_u64(s@) is None);
            return None;
        }
        let digit = (c as u32 - '0' as u32) as u64;
        let ghost t1 = d.take(i - start + 1);
        assert(t1.drop_last() =~= d.take(i - start));
        assert(t1.last() == c);
        assert(digits_value(t1) == v * 10 + digit);
        let next = match v.checked_mul(10) {
            Some(m) => m.checked_add(digit),
            None => None,
        };
        match next {
            Some(n) => {
                v = n;
            },
            None => {
                proof {
                    assert(digits_value(t1) > u64::MAX);
                    if all_digits(d) {
                        lemma_digits_grow(d, i - start + 1);
                        assert(digits_value(d) > u64::MAX);
                    }
                    assert(parse_u64(s@) is None);
                }
                return None;
            },
        }
        i = i + 1;
    }
    assert(d.take(i - start) =~= d);
    Some(v)
}

/// First position at or after `i` where `t=` begins, or the length.
pub open spec fn first_t_eq(s: Seq<char>, i: int) -> int
    decreases s.len() - i,
{
    if i < 0 || i + 1 >= s.len() {
        s.len() as int
    } else if s[i] == 't' && s[i + 1] == '=' {
        i
    } else {
        first_t_eq(s, i + 1)
    }
}

pub proof fn lemma_first_t_eq(s: Seq<char>, i: int)
    requires
        0 <= i,
    ensures
        i <= first_t_eq(s, i) || i >= s.len(),
        first_t_eq(s, i) <= s.len(),
        first_t_eq(s, i) < s.len() ==> first_t_eq(s, i) + 1 < s.len(),
    decreases s.len() - i,
{
    if i + 1 < s.len() && !(s[i] == 't' && s[i + 1] == '=') {
        lemma_first_t_eq(s, i + 1);
    }
}

/// The text after the first `t=`, up to the next `t=` or `&`: the second
/// piece of `split("t=")`, cut at `&`.
pub open spec fn t_param(path: Seq<char>) -> Option<Seq<char>> {
    let i = first_t_eq(path, 0);
    if i >= path.len() {
        None
    } else {
        let rest = path.skip(i + 2);
        let a = first_t_eq(rest, 0);
        let b = crate::assets::icons::first_of(rest, '&', 0);
        Some(rest.take(if a < b { a } else { b }))
    }
}

/// The time a frame request asks for; 0 when it names none or no number.
pub open spec fn frame_time_param(path: Seq<char>) -> u64 {
    match t_param(path) {
        Some(p) => match parse_u64(p) {
            Some(v) => v,
            None => 0,
        },
        None => 0,
    }
}

/// `/frame.svg`, the prefix of frame requests.
pub open spec fn frame_prefix() -> Seq<char> {
    seq!['/', 'f', 'r', 'a', 'm', 'e', '.', 's', 'v', 'g']
}

/// What the live view serves for a request.
#[derive(Debug, PartialEq, Eq, Structural)]
pub enum Route {
    /// The page that shows the animation.
    Index,
    /// One frame, at the given time in milliseconds.
    Frame(u64),
    /// Anything else.
    Missing,
}

/// The route for a request: `/` is the page, a path starting with
/// `/frame.svg` is a frame at its `t=` time, anything else is missing.
pub open spec fn route_spec(req: Seq<char>) -> Route {
    let p = request_path(req);
    if p == seq!['/'] {
        Route::Index
    } else if p.len() >= 10 && p.take(10) == frame_prefix() {
        Route::Frame(frame_time_param(p))
    } else {
        Route::Missing
    }
}

fn t_eq_at(s: &Vec<char>, i: usize) -> (r: usize)
    requires
        i <= s@.len(),
    ensures
        r == first_t_eq(s@, i as int),
{
    let mut k = i;
    while s.len() > 0 && k < s.len() - 1 && !(s[k] == 't' && s[k + 1] == '=')
        invariant
            i <= k <= s@.len(),
            first_t_eq(s@, i as int) == first_t_eq(s@, k as int),
        decreases s@.len() - k,
    {
        k = k + 1;
    }
    if s.len() > 0 && k < s.len() - 1 { k } else { s.len() }
}

fn amp_at(s: &Vec<char>) -> (r: usize)
    ensures
        r == crate::assets::icons::first_of(s@, '&', 0),
        r <= s@.len(),
{
    let mut k: usize = 0;
    while k < s.len() && s[k] != '&'
        invariant
            k <= s@.len(),
            crate::assets::icons::first_of(s@, '&', 0) == crate::assets::icons::first_of(s@, '&', k as int),
        decreases s@.len() - k,
    {
        k = k + 1;
    }
    k
}

/// Decides what a request asks the live view for.
pub fn route(req: &str) -> (r: Route)
    ensures
        r == route_spec(req@),
{
    let p = path_of(req);
    if p.len() == 1 && p[0] == '/' {
        assert(p@ =~= seq!['/']);
        return Route::Index;
    }
    assert(p@ != seq!['/']);
    let prefix: Vec<char> = vec!['/', 'f', 'r', 'a', 'm', 'e', '.', 's', 'v', 'g'];
    assert(prefix@ =~= frame_prefix());
    if p.len() < 10 {
        return Route::Missing;
    }
    let mut k: usize = 0;
    while k < 10
        invariant
            k <= 10,
            p@.len() >= 10,
            p@ == request_path(req@),
            p@ != seq!['/'],
            prefix@ == frame_prefix(),
            forall|j: int| 0 <= j < k ==> p@[j] == prefix@[j],
        decreases 10 - k,
    {
        if p[k] != prefix[k] {
            assert(p@.take(10)[k as int] != frame_prefix()[k as int]);
            return Route::Missing;
        }
        k = k + 1;
    }
    assert(p@.take(10) =~= frame_prefix());
    let i = t_eq_at(&p, 0);
    proof {
        lemma_first_t_eq(p@, 0);
    }
    if i >= p.len() {
        return Route::Frame(0);
    }
    let rest = copy_range(&p, i + 2, p.len());
    assert(rest@ =~= p@.skip(i + 2));
    let a = t_eq_at(&rest, 0);
    let b = amp_at(&rest);
    proof {
        lemma_first_t_eq(rest@, 0);
    }
    let cut = if a < b { a } else { b };
    let piece = copy_range(&rest, 0, cut);
    assert(piece@ =~= rest@.take(cut as int));
    match parse_number(&piece) {
        Some(v) => Route::Frame(v),
        None => Route::Frame(0),
    }
}

/// Reads a whole string as `str::parse::<u64>` does.
pub fn parse_decimal(text: &str) -> (r: Option<u64>)
    ensures
        r == parse_u64(text@),
{
    let cs = chars_of(text);
    parse_number(&cs)
}

/// Most frames one export writes.
pub const MAX_EXPORT_FRAMES: u64 = 1800;

/// Why an explicit frame count was refused.
#[derive(Debug, PartialEq, Eq, Structural)]
pub enum CountError {
    /// The text is not a whole number.
    NotInteger,
    /// The number is 0 or more than the most frames an export writes.
    OutOfRange,
}

/// The frame count an export was given explicitly.
pub fn frame_count(text: &str) -> (r: Result<u64, CountError>)
    ensures
        match parse_u64(text@) {
            None => r == Err::<u64, CountError>(CountError::NotInteger),
            Some(n) => if 1 <= n <= MAX_EXPORT_FRAMES {
                r == Ok::<u64, CountError>(n)
            } else {
                r == Err::<u64, CountError>(CountError::OutOfRange)
            },
        },
{
    match parse_decimal(text) {
        None => Err(CountError::NotInteger),
        Some(n) => if 1 <= n && n <= MAX_EXPORT_FRAMES { Ok(n) } else { Err(CountError::OutOfRange) },
    }
}

/// Time of frame `i` when `count` frames spread evenly over a loop of
/// `duration` milliseconds, rounded down.
pub fn frame_time(i: u64, duration: u64, count: u64) -> (t: u64)
    requires
        i < count,
    ensures
        t as int == (i as int * duration as int) / (count as int),
{
    assert((i as int) * (duration as int) <= (count as int) * (duration as int)) by (nonlinear_arith)
        requires i < count;
    assert((count as int) * (duration as int) <= 0xffff_ffff_ffff_ffffint * 0xffff_ffff_ffff_ffffint) by (nonlinear_arith)
        requires count <= 0xffff_ffff_ffff_ffffu64, duration <= 0xffff_ffff_ffff_ffffu64;
    let p: u128 = i as u128 * duration as u128;
    let q: u128 = p / count as u128;
    assert(q as int <= duration as int) by (nonlinear_arith)
        requires q as int == (p as int) / (count as int), p as int == (i as int) * (duration as int), i < count;
    q as u64
}

/// `n` zeros.
pub open spec fn zeros(n: int) -> Seq<char>
    decreases n,
{
    if n <= 0 { seq![] } else { zeros(n - 1).push('0') }
}

/// Name of export frame `n`: its number padded with zeros to five digits,
/// then `.png`.
pub open spec fn frame_file_spec(n: u64) -> Seq<char> {
    zeros(5 - dec(n as nat).len()) + dec(n as nat) + seq!['.', 'p', 'n', 'g']
}

/// The file name of export frame `n` (`00001.png` for the first).
pub fn frame_file(n: u64) -> (s: String)
    ensures
        s@ == frame_file_spec(n),
{
    let digits = crate::text::decimal(n);
    let len = chars_of(digits.as_str()).len();
    let mut s = String::new();
    let mut k: usize = len;
    while k < 5
        invariant
            len == dec(n as nat).len(),
            len <= k <= 5 || (len > 5 && k == len),
            s@ == zeros(k - len),
        decreases 5 - k,
    {
        push_char(&mut s, '0');
        k = k + 1;
    }
    assert(s@ == zeros(5 - dec(n as nat).len())) by {
        if len >= 5 {
            assert(zeros(5 - len as int) =~= zeros(0));
        }
    }
    push_str(&mut s, digits.as_str());
    push_char(&mut s, '.');
    push_char(&mut s, 'p');
    push_char(&mut s, 'n');
    push_char(&mut s, 'g');
    assert(s@ =~= frame_file_spec(n));
    s
}

} // verus!
