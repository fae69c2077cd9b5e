//! Text handling: splitting into pieces, lines and words, and reading numbers.
use vstd::prelude::*;
use vstd::utf8::{decode_utf8, valid_utf8};

verus! {

/// Copies the characters of `s`.
pub fn chars_of(s: &str) -> (v: Vec<char>)
    ensures
        v@ == s@,
{
    let n = s.unicode_len();
    let mut v: Vec<char> = Vec::new();
    let mut i: usize = 0;
    while i < n
        invariant
            i <= n,
            n == s@.len(),
            v@ == s@.take(i as int),
        decreases n - i,
    {
        v.push(s.get_char(i));
        i += 1;
        assert(v@ =~= s@.take(i as int));
    }
    assert(v@ =~= s@);
    v
}

/// Calls `Iterator::collect::<String>` on the characters of `v`; claims that
/// the string holds exactly those characters, in order.
#[verifier::external_body]
pub(crate) fn string_of(v: &Vec<char>) -> (s: String)
    ensures
        s@ == v@,
{
    v.iter().collect()
}

/// The pieces of `s` between the occurrences of `sep`, as `str::split` gives
/// them: there is always one piece more than there are separators.
pub open spec fn split_on(s: Seq<char>, sep: char) -> Seq<Seq<char>>
    decreases s.len(),
{
    if s.len() == 0 {
        seq![Seq::<char>::empty()]
    } else {
        let rest = split_on(s.drop_last(), sep);
        if s.last() == sep {
            rest.push(Seq::<char>::empty())
        } else {
            rest.update(rest.len() - 1, rest.last().push(s.last()))
        }
    }
}

pub proof fn lemma_split_on_nonempty(s: Seq<char>, sep: char)
    ensures
        split_on(s, sep).len() >= 1,
    decreases s.len(),
{
    if s.len() > 0 {
        lemma_split_on_nonempty(s.drop_last(), sep);
    }
}

/// The views of a list of strings.
pub open spec fn views(v: Seq<String>) -> Seq<Seq<char>> {
    v.map_values(|x: String| x@)
}

/// Splits `s` at every `sep`, as `str::split` with a character does.
pub fn split_char(s: &str, sep: char) -> (r: Vec<String>)
    ensures
        views(r@) == split_on(s@, sep),
{
    let cs = chars_of(s);
    let mut done: Vec<String> = Vec::new();
    let mut cur: Vec<char> = Vec::new();
    let mut i: usize = 0;
    while i < cs.len()
        invariant
            i <= cs.len(),
            cs@ == s@,
            views(done@) + seq![cur@] == split_on(s@.take(i as int), sep),
        decreases cs.len() - i,
    {
        let c = cs[i];
        let ghost prev = split_on(s@.take(i as int), sep);
        proof {
            assert(s@.take(i as int + 1).drop_last() =~= s@.take(i as int));
            assert(s@.take(i as int + 1).last() == c);
            lemma_split_on_nonempty(s@.take(i as int), sep);
        }
        if c == sep {
            let piece = string_of(&cur);
            done.push(piece);
            cur = Vec::new();
            proof {
                assert(views(done@) + seq![cur@] =~= prev.push(Seq::<char>::empty()));
            }
        } else {
            cur.push(c);
            proof {
                assert(prev.last() == (views(done@) + seq![cur@.drop_last()]).last());
                assert(views(done@) + seq![cur@] =~= prev.update(prev.len() - 1, prev.last().push(c)));
            }
        }
        i += 1;
    }
    let last = string_of(&cur);
    let ghost before = done@;
    done.push(last);
    proof {
        assert(s@.take(cs.len() as int) =~= s@);
        assert(views(done@) =~= views(before) + seq![cur@]);
    }
    done
}

/// A line without the carriage return that ended it, if any.
pub open spec fn strip_cr(p: Seq<char>) -> Seq<char> {
    if p.len() > 0 && p.last() == '\r' {
        p.drop_last()
    } else {
        p
    }
}

/// The lines of `s`, as `str::lines` gives them: lines end at `\n` or
/// `\r\n`, the last line needs no ending, and an empty text has no lines.
pub open spec fn lines_of(s: Seq<char>) -> Seq<Seq<char>> {
    let ps = split_on(s, '\n');
    let k = if ps.last().len() == 0 {
        ps.len() - 1
    } else {
        ps.len() as int
    };
    Seq::new(k as nat, |j: int| if j < ps.len() - 1 { strip_cr(ps[j]) } else { ps[j] })
}

/// Drops one carriage return at the end of `p`.
fn strip_cr_string(p: &String) -> (r: String)
    ensures
        r@ == strip_cr(p@),
{
    let mut cs = chars_of(p.as_str());
    let n = cs.len();
    if n > 0 && cs[n - 1] == '\r' {
        cs.pop();
        assert(cs@ =~= p@.drop_last());
    }
    string_of(&cs)
}

/// Splits `s` into lines, as `str::lines` does.
pub fn lines(s: &str) -> (r: Vec<String>)
    ensures
        views(r@) == lines_of(s@),
{
    let ps = split_char(s, '\n');
    let ghost sp = split_on(s@, '\n');
    proof {
        lemma_split_on_nonempty(s@, '\n');
        assert(views(ps@).len() == ps@.len());
    }
    let n = ps.len();
    let k = if ps[n - 1].unicode_len() == 0 {
        n - 1
    } else {
        n
    };
    proof {
        assert(ps@[n - 1]@ == sp[n - 1]);
        assert(ps[n as int - 1]@ == sp.last());
    }
    let mut r: Vec<String> = Vec::new();
    let mut j: usize = 0;
    while j < k
        invariant
            j <= k <= n,
            n == ps@.len(),
            n == sp.len(),
            sp == split_on(s@, '\n'),
            views(ps@) == sp,
            k == lines_of(s@).len(),
            views(r@) == lines_of(s@).take(j as int),
        decreases k - j,
    {
        assert(ps@[j as int]@ == sp[j as int]);
        let ghost want = lines_of(s@)[j as int];
        assert(want == (if j < sp.len() - 1 { strip_cr(sp[j as int]) } else { sp[j as int] }));
        let ghost before = r@;
        if j + 1 < n {
            let line = strip_cr_string(&ps[j]);
            assert(line@ == want);
            r.push(line);
        } else {
            let line = ps[j].clone();
            assert(line@ == want);
            r.push(line);
        }
        assert(views(r@) =~= views(before).push(want));
        j += 1;
        assert(views(r@) =~= lines_of(s@).take(j as int));
    }
    assert(lines_of(s@).take(k as int) =~= lines_of(s@));
    r
}

/// The pieces of `s` after its last `sep`, as
/// `split(sep).last()` gives it.
pub open spec fn after_last(s: Seq<char>, sep: char) -> Seq<char> {
    split_on(s, sep).last()
}

/// The characters that `char::is_whitespace` accepts: those with the
/// Unicode `White_Space` property.
pub open spec fn is_white_space(c: char) -> bool {
    ||| ('\u{9}' <= c && c <= '\u{d}')
    ||| c == ' '
    ||| c == '\u{85}'
    ||| c == '\u{a0}'
    ||| c == '\u{1680}'
    ||| ('\u{2000}' <= c && c <= '\u{200a}')
    ||| c == '\u{2028}'
    ||| c == '\u{2029}'
    ||| c == '\u{202f}'
    ||| c == '\u{205f}'
    ||| c == '\u{3000}'
}

pub fn is_whitespace(c: char) -> (r: bool)
    ensures
        r == is_white_space(c),
{
    ('\u{9}' <= c && c <= '\u{d}') || c == ' ' || c == '\u{85}' || c == '\u{a0}' || c == '\u{1680}'
        || ('\u{2000}' <= c && c <= '\u{200a}') || c == '\u{2028}' || c == '\u{2029}' || c == '\u{202f}'
        || c == '\u{205f}' || c == '\u{3000}'
}

/// The pieces of `s` between whitespace characters (some of them empty).
pub open spec fn split_ws(s: Seq<char>) -> Seq<Seq<char>>
    decreases s.len(),
{
    if s.len() == 0 {
        seq![Seq::<char>::empty()]
    } else {
        let rest = split_ws(s.drop_last());
        if is_white_space(s.last()) {
            rest.push(Seq::<char>::empty())
        } else {
            rest.update(rest.len() - 1, rest.last().push(s.last()))
        }
    }
}

pub proof fn lemma_split_ws_nonempty(s: Seq<char>)
    ensures
        split_ws(s).len() >= 1,
    decreases s.len(),
{
    if s.len() > 0 {
        lemma_split_ws_nonempty(s.drop_last());
    }
}

pub open spec fn not_empty() -> spec_fn(Seq<char>) -> bool {
    |p: Seq<char>| p.len() > 0
}

/// The words of `s`, as `str::split_whitespace` gives them.
pub open spec fn words_of(s: Seq<char>) -> Seq<Seq<char>> {
    split_ws(s).filter(not_empty())
}

proof fn lemma_filter_push_piece(a: Seq<Seq<char>>, x: Seq<char>)
    ensures
        a.push(x).filter(not_empty()) == a.filter(not_empty()) + (if x.len() > 0 {
            seq![x]
        } else {
            Seq::<Seq<char>>::empty()
        }),
{
    reveal_with_fuel(Seq::filter, 1);
    assert(a.push(x).drop_last() =~= a);
    if x.len() > 0 {
        assert(a.filter(not_empty()).push(x) =~= a.filter(not_empty()) + seq![x]);
    } else {
        assert(a.filter(not_empty()) + Seq::<Seq<char>>::empty() =~= a.filter(not_empty()));
    }
}

/// Splits `s` into words, as `str::split_whitespace` does.
pub fn split_whitespace(s: &str) -> (r: Vec<String>)
    ensures
        views(r@) == words_of(s@),
{
    let cs = chars_of(s);
    let mut done: Vec<String> = Vec::new();
    let mut cur: Vec<char> = Vec::new();
    let mut i: usize = 0;
    while i < cs.len()
        invariant
            i <= cs.len(),
            cs@ == s@,
            split_ws(s@.take(i as int)).len() >= 1,
            views(done@) == split_ws(s@.take(i as int)).drop_last().filter(not_empty()),
            cur@ == split_ws(s@.take(i as int)).last(),
        decreases cs.len() - i,
    {
        let c = cs[i];
        let ghost prev = split_ws(s@.take(i as int));
        proof {
            assert(s@.take(i as int + 1).drop_last() =~= s@.take(i as int));
            assert(s@.take(i as int + 1).last() == c);
        }
        if is_whitespace(c) {
            proof {
                assert(prev =~= prev.drop_last().push(prev.last()));
                lemma_filter_push_piece(prev.drop_last(), prev.last());
            }
            if cur.len() > 0 {
                let w = string_of(&cur);
                done.push(w);
            }
            cur = Vec::new();
            proof {
                let next = prev.push(Seq::<char>::empty());
                assert(next.drop_last() =~= prev);
                assert(views(done@) =~= prev.filter(not_empty()));
            }
        } else {
            cur.push(c);
            proof {
                let next = prev.update(prev.len() - 1, prev.last().push(c));
                assert(next.drop_last() =~= prev.drop_last());
            }
        }
        i += 1;
        proof {
            lemma_split_ws_nonempty(s@.take(i as int));
        }
    }
    proof {
        assert(s@.take(cs.len() as int) =~= s@);
        let all = split_ws(s@);
        assert(all =~= all.drop_last().push(all.last()));
        lemma_filter_push_piece(all.drop_last(), all.last());
    }
    if cur.len() > 0 {
        let w = string_of(&cur);
        done.push(w);
    }
    done
}

/// The value of a string of decimal digits.
pub open spec fn digits_value(d: Seq<char>) -> int
    decreases d.len(),
{
    if d.len() == 0 {
        0
    } else {
        digits_value(d.drop_last()) * 10 + (d.last() as int - '0' as int)
    }
}

pub open spec fn all_digits(d: Seq<char>) -> bool {
    forall|i: int| 0 <= i < d.len() ==> '0' <= #[trigger] d[i] && d[i] <= '9'
}

/// The integer that `s` writes: an optional sign, then one or more decimal
/// digits and nothing else.
pub open spec fn integer_of(s: Seq<char>) -> Option<int> {
    let neg = s.len() > 0 && s[0] == '-';
    let d = if s.len() > 0 && (s[0] == '-' || s[0] == '+') {
        s.drop_first()
    } else {
        s
    };
    if d.len() == 0 || !all_digits(d) {
        None
    } else if neg {
        Some(-digits_value(d))
    } else {
        Some(digits_value(d))
    }
}

/// What `s.parse::<i64>()` gives: the integer `s` writes, if it fits.
pub open spec fn parse_i64_spec(s: Seq<char>) -> Option<i64> {
    match integer_of(s) {
        Some(v) => if i64::MIN <= v <= i64::MAX {
            Some(v as i64)
        } else {
            None
        },
        None => None,
    }
}

proof fn lemma_digits_value_grows(d: Seq<char>, i: int)
    requires
        all_digits(d),
        0 <= i <= d.len(),
    ensures
        digits_value(d.take(i)) <= digits_value(d),
        0 <= digits_value(d.take(i)),
    decreases d.len() - i,
{
    if i < d.len() {
        lemma_digits_value_grows(d, i + 1);
        assert(d.take(i + 1).drop_last() =~= d.take(i));
        assert('0' <= d[i] && d[i] <= '9');
        assert(d.take(i + 1).last() == d[i]);
    } else {
        assert(d.take(i) =~= d);
    }
    lemma_digits_value_nonneg(d.take(i));
}

proof fn lemma_digits_value_nonneg(d: Seq<char>)
    requires
        all_digits(d),
    ensures
        0 <= digits_value(d),
    decreases d.len(),
{
    if d.len() > 0 {
        assert(all_digits(d.drop_last())) by {
            assert forall|i: int| 0 <= i < d.drop_last().len() implies '0' <= #[trigger] d.drop_last()[i]
                && d.drop_last()[i] <= '9' by {
                assert(d.drop_last()[i] == d[i]);
            }
        }
        lemma_digits_value_nonneg(d.drop_last());
        assert('0' <= d[d.len() - 1]);
    }
}

/// Reads a decimal integer, as `str::parse::<i64>` does.
pub fn parse_i64(s: &str) -> (r: Option<i64>)
    ensures
        r == parse_i64_spec(s@),
{
    let cs = chars_of(s);
    let n = cs.len();
    let neg = n > 0 && cs[0] == '-';
    let start: usize = if n > 0 && (cs[0] == '-' || cs[0] == '+') {
        1
    } else {
        0
    };
    let ghost d = if s@.len() > 0 && (s@[0] == '-' || s@[0] == '+') {
        s@.drop_first()
    } else {
        s@
    };
    assert(d =~= s@.skip(start as int));
    if start == n {
        return None;
    }
    let mut acc: u64 = 0;
    let mut i: usize = start;
    while i < n
        invariant
            start <= i <= n,
            n == cs@.len(),
            cs@ == s@,
            d == s@.skip(start as int),
            d == (if s@.len() > 0 && (s@[0] == '-' || s@[0] == '+') {
                s@.drop_first()
            } else {
                s@
            }),
            d.len() == n - start,
            all_digits(d.take(i - start)),
            acc == digits_value(d.take(i - start)),
            acc <= 9223372036854775808u64,
        decreases n - i,
    {
        let c = cs[i];
        proof {
            assert(d.take(i - start + 1).drop_last() =~= d.take(i - start));
            assert(d.take(i - start + 1).last() == c);
        }
        if !('0' <= c && c <= '9') {
            proof {
                assert(d[i - start] == c);
                assert(!all_digits(d));
            }
            return None;
        }
        let digit = (c as u32 - '0' as u32) as u64;
        if acc > 922337203685477580u64 || (acc == 922337203685477580u64 && digit > 8) {
            proof {
                if all_digits(d) {
                    lemma_digits_value_grows(d, i - start + 1);
                    assert(digits_value(d.take(i - start + 1)) == acc * 10 + digit);
                    assert(digits_value(d) > 9223372036854775808);
                }
            }
            return None;
        }
        acc = acc * 10 + digit;
        i += 1;
        proof {
            assert forall|k: int| 0 <= k < d.take(i - start).len() implies '0' <= #[trigger] d.take(i - start)[k]
                && d.take(i - start)[k] <= '9' by {
                if k < i - start - 1 {
                    assert(d.take(i - start)[k] == d.take(i - start - 1)[k]);
                }
            }
        }
    }
    proof {
        assert(d.take(n - start) =~= d);
    }
    if neg {
        if acc == 9223372036854775808u64 {
            Some(i64::MIN)
        } else {
            Some(-(acc as i64))
        }
    } else {
        if acc > 9223372036854775807u64 {
            None
        } else {
            Some(acc as i64)
        }
    }
}

/// A name for what `String::from_utf8_lossy` makes of some bytes: their
/// decoding, with each invalid sequence replaced by U+FFFD.
pub uninterp spec fn lossy_utf8(bytes: Seq<u8>) -> Seq<char>;

/// Calls `String::from_utf8_lossy`. Claims that the result is `lossy_utf8` of
/// the bytes, and that valid UTF-8 is decoded as it stands.
#[verifier::external_body]
pub(crate) fn utf8_lossy(bytes: &Vec<u8>) -> (s: String)
    ensures
        s@ == lossy_utf8(bytes@),
        valid_utf8(bytes@) ==> s@ == decode_utf8(bytes@),
{
    String::from_utf8_lossy(bytes).into_owned()
}

/// Calls `String::from_utf8`. Claims that it succeeds exactly on valid UTF-8,
/// with the decoded characters.
#[verifier::external_body]
pub(crate) fn utf8_string(bytes: Vec<u8>) -> (r: Option<String>)
    ensures
        r is Some <==> valid_utf8(bytes@),
        r matches Some(s) ==> s@ == decode_utf8(bytes@),
{
    match String::from_utf8(bytes) {
        Ok(s) => Some(s),
        Err(_) => None,
    }
}

/// Appends the characters of `src` to `dst`.
pub fn push_all(dst: &mut Vec<char>, src: &Vec<char>)
    ensures
        final(dst)@ == old(dst)@ + src@,
{
    let mut i: usize = 0;
    while i < src.len()
        invariant
            i <= src.len(),
            dst@ == old(dst)@ + src@.take(i as int),
        decreases src.len() - i,
    {
        dst.push(src[i]);
        i += 1;
        assert(dst@ =~= old(dst)@ + src@.take(i as int));
    }
    assert(src@.take(src.len() as int) =~= src@);
}

} // verus!
