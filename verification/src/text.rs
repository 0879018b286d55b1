//! Text helpers: word counting, title slugs, and case-insensitive
//! substring matching over UTF-8 bytes.

use vstd::prelude::*;

use vstd::string::StringSliceAdditionalSpecFns;
use vstd::string::StrSliceExecFns;
use vstd::utf8::encode_utf8;

verus! {

/// The Unicode white-space characters, as `str::split_whitespace` sees
/// them.
pub open spec fn is_ws(c: char) -> bool {
    ||| c == ' '
    ||| c == '\t'
    ||| c == '\n'
    ||| c == '\u{0B}'
    ||| c == '\u{0C}'
    ||| c == '\r'
    ||| c == '\u{85}'
    ||| c == '\u{A0}'
    ||| c == '\u{1680}'
    ||| ('\u{2000}' <= c && c <= '\u{200A}')
    ||| c == '\u{2028}'
    ||| c == '\u{2029}'
    ||| c == '\u{202F}'
    ||| c == '\u{205F}'
    ||| c == '\u{3000}'
}

fn ws(c: char) -> (r: bool)
    ensures
        r == is_ws(c),
{
    c == ' ' || c == '\t' || c == '\n' || c == '\u{0B}' || c == '\u{0C}' || c == '\r' || c
        == '\u{85}' || c == '\u{A0}' || c == '\u{1680}' || ('\u{2000}' <= c && c <= '\u{200A}')
        || c == '\u{2028}' || c == '\u{2029}' || c == '\u{202F}' || c == '\u{205F}' || c
        == '\u{3000}'
}

/// The number of maximal runs of non-white-space characters: what
/// splitting on white space and counting the pieces gives.
pub open spec fn word_count(s: Seq<char>) -> int
    decreases s.len(),
{
    if s.len() == 0 {
        0
    } else {
        word_count(s.drop_last()) + (if !is_ws(s.last()) && (s.len() == 1 || is_ws(
            s[s.len() - 2],
        )) {
            1int
        } else {
            0int
        })
    }
}

/// A word starts wherever a non-white-space character follows white space
/// or the start, so the count never exceeds the length.
pub proof fn lemma_word_count_le_len(s: Seq<char>)
    ensures
        0 <= word_count(s) <= s.len(),
    decreases s.len(),
{
    if s.len() > 0 {
        lemma_word_count_le_len(s.drop_last());
    }
}

/// Counts whitespace-delimited tokens.
pub fn count_words_in(content: &String) -> (r: i64)
    requires
        content@.len() <= i64::MAX,
    ensures
        r == word_count(content@),
{
    let text = content.as_str();
    let n = text.unicode_len();
    let mut count: i64 = 0;
    let mut prev_ws: bool = true;
    let mut i: usize = 0;
    while i < n
        invariant
            n == content@.len(),
            text@ == content@,
            i <= n,
            n <= i64::MAX,
            count == word_count(content@.subrange(0, i as int)),
            prev_ws == (i == 0 || is_ws(content@[i as int - 1])),
        decreases n - i,
    {
        proof {
            lemma_word_count_le_len(content@.subrange(0, i as int));
        }
        let c = text.get_char(i);
        let cw = ws(c);
        if !cw && prev_ws {
            count = count + 1;
        }
        proof {
            let pre = content@.subrange(0, i as int);
            let cur = content@.subrange(0, i as int + 1);
            assert(cur.drop_last() =~= pre);
            assert(cur.last() == content@[i as int]);
            if i > 0 {
                assert(cur[cur.len() - 2] == content@[i as int - 1]);
            }
        }
        prev_ws = cw;
        i += 1;
    }
    proof {
        assert(content@.subrange(0, n as int) =~= content@);
    }
    count
}

// ---------------------------------------------------------------------
// Slugs.
// ---------------------------------------------------------------------
/// The Unicode lowercase form of a text; it depends on the characters
/// alone.
pub uninterp spec fn lower_of(s: Seq<char>) -> Seq<char>;

/// Relies on str::to_lowercase: the Unicode lowercase form of the text,
/// a function of the characters alone; an empty text stays empty.
#[verifier::external_body]
pub fn lowercase(s: &String) -> (r: String)
    ensures
        r@ == lower_of(s@),
        s@.len() == 0 ==> r@.len() == 0,
{
    s.as_str().to_lowercase()
}

/// Whether the character has the Unicode alphanumeric property; it
/// depends on the character alone.
pub uninterp spec fn is_alnum(c: char) -> bool;

/// Relies on char::is_alphanumeric: the Unicode alphanumeric property of
/// one character.
#[verifier::external_body]
pub fn char_is_alnum(c: char) -> (r: bool)
    ensures
        r == is_alnum(c),
{
    c.is_alphanumeric()
}

/// An alphanumeric character keeps its place in a slug; every other
/// character becomes a hyphen.
pub open spec fn slug_map_char(c: char) -> char {
    if is_alnum(c) {
        c
    } else {
        '-'
    }
}

/// Maps each character to its slug form and collapses runs of hyphens to
/// one.
pub open spec fn slug_core_chars(s: Seq<char>) -> Seq<char>
    decreases s.len(),
{
    if s.len() == 0 {
        Seq::empty()
    } else {
        let rest = slug_core_chars(s.drop_last());
        let mc = slug_map_char(s.last());
        if rest.len() > 0 && rest.last() == '-' && mc == '-' {
            rest
        } else {
            rest.push(mc)
        }
    }
}

/// How many leading hyphens the sequence carries.
pub open spec fn lead_dashes(s: Seq<char>) -> int
    decreases s.len(),
{
    if s.len() == 0 || s[0] != '-' {
        0
    } else {
        1 + lead_dashes(s.drop_first())
    }
}

/// How many trailing hyphens the sequence carries.
pub open spec fn trail_dashes(s: Seq<char>) -> int
    decreases s.len(),
{
    if s.len() == 0 || s.last() != '-' {
        0
    } else {
        1 + trail_dashes(s.drop_last())
    }
}

/// The sequence with leading and trailing hyphens trimmed away.
pub open spec fn trim_dashes(s: Seq<char>) -> Seq<char> {
    if lead_dashes(s) == s.len() {
        Seq::empty()
    } else {
        s.subrange(lead_dashes(s), s.len() - trail_dashes(s))
    }
}

/// The slug of a title: lowercased, every non-alphanumeric character
/// collapsed to single hyphens, trimmed of hyphens at both ends, and
/// capped at fifty characters.
pub open spec fn slug_of_title(s: Seq<char>) -> Seq<char> {
    let t = trim_dashes(slug_core_chars(lower_of(s)));
    if t.len() <= 50 {
        t
    } else {
        t.subrange(0, 50)
    }
}

/// The position where the leading hyphens end.
proof fn lemma_lead_dashes(s: Seq<char>, k: int)
    requires
        0 <= k <= s.len(),
        forall|j: int| 0 <= j < k ==> s[j] == '-',
        k == s.len() || s[k] != '-',
    ensures
        lead_dashes(s) == k,
    decreases s.len(),
{
    if s.len() == 0 {
    } else if s[0] != '-' {
        assert(k == 0);
    } else {
        let s2 = s.drop_first();
        assert(forall|j: int| 0 <= j < k - 1 ==> s2[j] == s[j + 1] && s2[j] == '-');
        assert(k >= 1);
        if k - 1 < s2.len() {
            assert(s2[k - 1] == s[k]);
        }
        lemma_lead_dashes(s2, k - 1);
    }
}

/// The position where the trailing hyphens begin.
proof fn lemma_trail_dashes(s: Seq<char>, k: int)
    requires
        0 <= k <= s.len(),
        forall|j: int| k <= j < s.len() ==> s[j] == '-',
        k == 0 || s[k - 1] != '-',
    ensures
        trail_dashes(s) == s.len() - k,
    decreases s.len(),
{
    if s.len() == 0 {
    } else if s.last() != '-' {
        assert(k == s.len());
    } else {
        let s2 = s.drop_last();
        assert(k < s.len());
        assert(forall|j: int| k <= j < s2.len() ==> s2[j] == s[j] && s2[j] == '-');
        if k > 0 {
            assert(s2[k - 1] == s[k - 1]);
        }
        lemma_trail_dashes(s2, k);
    }
}

/// A filesystem-safe slug of the title: the Unicode lowercase form with
/// every non-alphanumeric character collapsed to single hyphens, trimmed
/// of hyphens at both ends, at most fifty characters.
pub fn slug_text(title: &String) -> (r: String)
    ensures
        r@ == slug_of_title(title@),
{
    let lowered = lowercase(title);
    let ls = lowered.as_str();
    let n = ls.unicode_len();
    proof {
        reveal_strlit("-");
    }
    let mut core: String = String::new();
    let mut ends_dash: bool = false;
    let mut i: usize = 0;
    while i < n
        invariant
            ls@ == lowered@,
            n == lowered@.len(),
            i <= n,
            core@ == slug_core_chars(lowered@.subrange(0, i as int)),
            ends_dash == (core@.len() > 0 && core@.last() == '-'),
        decreases n - i,
    {
        let c = ls.get_char(i);
        let alnum = char_is_alnum(c);
        let mc_is_dash = if alnum {
            c == '-'
        } else {
            true
        };
        proof {
            reveal_strlit("-");
            let pre = lowered@.subrange(0, i as int);
            let cur = lowered@.subrange(0, i as int + 1);
            assert(cur.drop_last() =~= pre);
            assert(cur.last() == lowered@[i as int]);
            assert(mc_is_dash == (slug_map_char(lowered@[i as int]) == '-'));
        }
        let ghost prev = core@;
        if ends_dash && mc_is_dash {
        } else {
            if alnum {
                let piece = ls.substring_char(i, i + 1);
                core.append(piece);
                proof {
                    assert(ls@.subrange(i as int, i as int + 1) =~= seq![lowered@[i as int]]);
                    assert(core@ =~= prev.push(slug_map_char(lowered@[i as int])));
                }
            } else {
                core.append("-");
                proof {
                    assert("-"@ =~= seq!['-']);
                    assert(core@ =~= prev.push(slug_map_char(lowered@[i as int])));
                }
            }
            ends_dash = mc_is_dash;
        }
        i += 1;
    }
    proof {
        assert(lowered@.subrange(0, n as int) =~= lowered@);
    }
    let cs = core.as_str();
    let m = cs.unicode_len();
    let mut start: usize = 0;
    while start < m && cs.get_char(start) == '-'
        invariant
            cs@ == core@,
            m == core@.len(),
            start <= m,
            forall|j: int| 0 <= j < start ==> core@[j] == '-',
        decreases m - start,
    {
        start += 1;
    }
    proof {
        lemma_lead_dashes(core@, start as int);
    }
    let mut end: usize = m;
    while end > start && cs.get_char(end - 1) == '-'
        invariant
            cs@ == core@,
            m == core@.len(),
            start <= end <= m,
            forall|j: int| end <= j < core@.len() ==> core@[j] == '-',
            lead_dashes(core@) == start,
        decreases end,
    {
        end -= 1;
    }
    if start >= m {
        proof {
            assert(lead_dashes(core@) == core@.len());
            assert(trim_dashes(core@) =~= Seq::<char>::empty());
            assert(slug_of_title(title@) =~= Seq::<char>::empty());
        }
        return String::new();
    }
    proof {
        if end == start {
            assert(core@[start as int] != '-');
            assert(false);
        }
        lemma_trail_dashes(core@, end as int);
        assert(trim_dashes(core@) == core@.subrange(start as int, end as int));
    }
    let cap_end = if end - start > 50 {
        start + 50
    } else {
        end
    };
    let trimmed = cs.substring_char(start, cap_end);
    proof {
        let t = trim_dashes(core@);
        if t.len() <= 50 {
            assert(core@.subrange(start as int, cap_end as int) =~= t);
        } else {
            assert(core@.subrange(start as int, cap_end as int) =~= t.subrange(0, 50));
        }
    }
    trimmed.to_owned()
}

// ---------------------------------------------------------------------
// Case-insensitive substring matching.
// ---------------------------------------------------------------------
/// Lowercases one ASCII letter byte; all other bytes are kept.
pub open spec fn lower_byte(b: u8) -> u8 {
    if 65 <= b && b <= 90 {
        (b + 32) as u8
    } else {
        b
    }
}

/// Lowercases every ASCII letter byte of the sequence.
pub open spec fn lower_bytes(s: Seq<u8>) -> Seq<u8>
    decreases s.len(),
{
    if s.len() == 0 {
        Seq::empty()
    } else {
        lower_bytes(s.drop_last()).push(lower_byte(s.last()))
    }
}

/// Lowercasing rewrites each byte in place.
pub proof fn lemma_lower_bytes(s: Seq<u8>)
    ensures
        lower_bytes(s).len() == s.len(),
        forall|i: int| 0 <= i < s.len() ==> lower_bytes(s)[i] == lower_byte(#[trigger] s[i]),
    decreases s.len(),
{
    if s.len() > 0 {
        lemma_lower_bytes(s.drop_last());
        assert forall|i: int| 0 <= i < s.len() implies lower_bytes(s)[i] == lower_byte(
            #[trigger] s[i],
        ) by {
            if i < s.len() - 1 {
                assert(lower_bytes(s)[i] == lower_bytes(s.drop_last())[i]);
                assert(s.drop_last()[i] == s[i]);
            }
        }
    }
}

/// `needle` occurs contiguously inside `hay`.
pub open spec fn contains_bytes(hay: Seq<u8>, needle: Seq<u8>) -> bool {
    exists|k: int|
        0 <= k && k + needle.len() <= hay.len() && #[trigger] hay.subrange(k, k + needle.len())
            == needle
}

/// The ASCII-lowercased UTF-8 bytes of a string.
pub fn lower_bytes_of(s: &String) -> (r: Vec<u8>)
    ensures
        r@ == lower_bytes(encode_utf8(s@)),
{
    let text = s.as_str();
    let bytes = text.as_bytes();
    let ghost all = text.spec_bytes();
    let mut out: Vec<u8> = Vec::new();
    let mut i: usize = 0;
    while i < bytes.len()
        invariant
            bytes@ == all,
            i <= all.len(),
            out@ == lower_bytes(all.subrange(0, i as int)),
        decreases all.len() - i,
    {
        let b = bytes[i];
        if 65 <= b && b <= 90 {
            out.push(b + 32);
        } else {
            out.push(b);
        }
        proof {
            let pre = all.subrange(0, i as int);
            let cur = all.subrange(0, i as int + 1);
            assert(cur.drop_last() =~= pre);
            assert(cur.last() == all[i as int]);
        }
        i += 1;
    }
    proof {
        assert(all.subrange(0, all.len() as int) =~= all);
    }
    out
}

/// Whether the lowercased title contains the already-lowercased query
/// bytes: the case-insensitive substring test behind title search.
pub fn title_contains(title: &String, query_lower: &Vec<u8>) -> (r: bool)
    ensures
        r == contains_bytes(lower_bytes(encode_utf8(title@)), query_lower@),
{
    let hay = lower_bytes_of(title);
    let n = hay.len();
    let q = query_lower.len();
    if q > n {
        proof {
            assert(!contains_bytes(hay@, query_lower@));
        }
        return false;
    }
    let mut k: usize = 0;
    while k <= n - q
        invariant
            q <= n,
            n == hay@.len(),
            q == query_lower@.len(),
            hay@ == lower_bytes(encode_utf8(title@)),
            k <= n - q + 1,
            forall|k2: int|
                0 <= k2 < k ==> #[trigger] hay@.subrange(k2, k2 + query_lower@.len())
                    != query_lower@,
        decreases n + 1 - q - k,
    {
        let mut j: usize = 0;
        let mut matched: bool = true;
        while j < q
            invariant
                q <= n,
                n == hay@.len(),
                q == query_lower@.len(),
                k + q <= n,
                j <= q,
                matched == (forall|j2: int|
                    0 <= j2 < j ==> hay@[k + j2] == query_lower@[j2]),
            decreases q - j,
        {
            if !(hay[k + j] == query_lower[j]) {
                proof {
                    assert(hay@[k as int + j as int] != query_lower@[j as int]);
                }
                matched = false;
                j = q;
            } else {
                proof {
                    assert(hay@[k as int + j as int] == query_lower@[j as int]);
                }
                j += 1;
            }
        }
        if matched {
            proof {
                assert(hay@.subrange(k as int, k as int + q as int) =~= query_lower@);
            }
            return true;
        }
        proof {
            assert(hay@.subrange(k as int, k as int + q as int) != query_lower@) by {
                let w = choose|j2: int| 0 <= j2 < q && hay@[k + j2] != query_lower@[j2];
                assert(hay@.subrange(k as int, k as int + q as int)[w] == hay@[k + w]);
            }
        }
        k += 1;
    }
    proof {
        assert(!contains_bytes(hay@, query_lower@));
    }
    false
}


// ---------------------------------------------------------------------
// Lexicographic byte order.
// ---------------------------------------------------------------------
/// Lexicographic order on byte sequences: how the store's binary
/// collation compares text.
pub open spec fn bytes_le(a: Seq<u8>, b: Seq<u8>) -> bool
    decreases a.len(),
{
    if a.len() == 0 {
        true
    } else if b.len() == 0 {
        false
    } else if a[0] < b[0] {
        true
    } else if a[0] > b[0] {
        false
    } else {
        bytes_le(a.drop_first(), b.drop_first())
    }
}

/// Any two byte sequences compare one way or the other.
pub proof fn lemma_bytes_le_total(a: Seq<u8>, b: Seq<u8>)
    ensures
        bytes_le(a, b) || bytes_le(b, a),
    decreases a.len(),
{
    if a.len() > 0 && b.len() > 0 && a[0] == b[0] {
        lemma_bytes_le_total(a.drop_first(), b.drop_first());
    }
}

/// The order chains.
pub proof fn lemma_bytes_le_trans(a: Seq<u8>, b: Seq<u8>, c: Seq<u8>)
    requires
        bytes_le(a, b),
        bytes_le(b, c),
    ensures
        bytes_le(a, c),
    decreases a.len(),
{
    if a.len() > 0 && b.len() > 0 && c.len() > 0 {
        if a[0] == b[0] && b[0] == c[0] {
            lemma_bytes_le_trans(a.drop_first(), b.drop_first(), c.drop_first());
        }
    }
}

/// Whether `a` comes no later than `b` in the store's binary collation.
pub fn str_bytes_le(a: &String, b: &String) -> (r: bool)
    ensures
        r == bytes_le(encode_utf8(a@), encode_utf8(b@)),
{
    let sa = a.as_str();
    let sb = b.as_str();
    let ba = sa.as_bytes();
    let bb = sb.as_bytes();
    let ghost ga = sa.spec_bytes();
    let ghost gb = sb.spec_bytes();
    let na = ba.len();
    let nb = bb.len();
    let mut i: usize = 0;
    proof {
        assert(ga.subrange(0, na as int) =~= ga);
        assert(gb.subrange(0, nb as int) =~= gb);
    }
    while i < na && i < nb && ba[i] == bb[i]
        invariant
            ba@ == ga,
            bb@ == gb,
            na == ga.len(),
            nb == gb.len(),
            i <= na,
            i <= nb,
            forall|j: int| 0 <= j < i ==> ga[j] == gb[j],
            bytes_le(ga, gb) == bytes_le(
                ga.subrange(i as int, na as int),
                gb.subrange(i as int, nb as int),
            ),
            bytes_le(gb, ga) == bytes_le(
                gb.subrange(i as int, nb as int),
                ga.subrange(i as int, na as int),
            ),
        decreases na - i,
    {
        proof {
            let ta = ga.subrange(i as int, na as int);
            let tb = gb.subrange(i as int, nb as int);
            assert(ta.drop_first() =~= ga.subrange(i as int + 1, na as int));
            assert(tb.drop_first() =~= gb.subrange(i as int + 1, nb as int));
            assert(ta[0] == ga[i as int] && tb[0] == gb[i as int]);
        }
        i += 1;
    }
    proof {
        let ta = ga.subrange(i as int, na as int);
        let tb = gb.subrange(i as int, nb as int);
        if i < na && i < nb {
            assert(ta[0] == ga[i as int] && tb[0] == gb[i as int]);
        } else if i == na {
            assert(ta.len() == 0);
        } else {
            assert(tb.len() == 0 && ta.len() > 0);
        }
    }
    if i == na {
        true
    } else if i == nb {
        false
    } else {
        ba[i] < bb[i]
    }
}

} // verus!
