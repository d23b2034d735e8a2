//! Text codec for authored island files.
//!
//! The format is a human-editable, whitespace-insensitive structured text:
//! a record is `(` followed by `name: value,` fields in declaration order
//! — fields separated by commas, the last comma optional — and a
//! closing `)`; maps are
//! `{ key: value, ... }` with an optional trailing comma; strings are
//! quoted, with a backslash escaping a quote or a backslash; tile
//! variants are tagged (`None`, `Tile(idx)`,
//! `Door(idx, room)`).  The serializer emits one canonical spelling; the
//! parser accepts any whitespace between tokens; and the two are proven
//! inverse to each other.

use vstd::prelude::*;

use crate::numerals::dec_rep;
use crate::numerals::dec_rep_i64;
use crate::numerals::is_digit;
use crate::numerals::lemma_parse_i64_exact;
use crate::numerals::lemma_parse_u64_exact;
use crate::numerals::lemma_dec_rep;
use crate::numerals::lemma_parse_u64_bounds;
use crate::numerals::parse_i64_at;
use crate::numerals::parse_u64_at;
use crate::numerals::push_dec_i64;
use crate::numerals::push_dec_u64;
use crate::numerals::spec_parse_i64;
use crate::numerals::spec_parse_u64;
use crate::strutil::str_chars;
use crate::mechanics::TileData;
use crate::mechanics::TileEntry;
use crate::mechanics::PropEntry;
use crate::mechanics::PropEntryView;
use crate::mechanics::Island;
use crate::mechanics::IslandView;
use crate::mechanics::Room;
use crate::mechanics::RoomView;
use crate::mechanics::EntitySpawn;
use crate::mechanics::EntitySpawnView;

verus! {

/// Whitespace that the parser skips between tokens.
pub open spec fn is_ws(c: char) -> bool {
    c == ' ' || c == '\t' || c == '\n' || c == '\r'
}

/// First position at or after `i` holding a non-whitespace character.
pub open spec fn skip_ws(s: Seq<char>, i: int) -> int
    decreases s.len() - i,
{
    if 0 <= i < s.len() && is_ws(s[i]) {
        skip_ws(s, i + 1)
    } else {
        i
    }
}

pub proof fn lemma_skip_ws_bounds(s: Seq<char>, i: int)
    requires
        0 <= i <= s.len(),
    ensures
        i <= skip_ws(s, i) <= s.len(),
    decreases s.len() - i,
{
    if i < s.len() && is_ws(s[i]) {
        lemma_skip_ws_bounds(s, i + 1);
    }
}

/// The word `w` stands letter for letter at position `i` of `s`.
pub open spec fn matches_at(s: Seq<char>, i: int, w: Seq<char>) -> bool {
    0 <= i && i + w.len() <= s.len() && s.subrange(i, i + w.len()) == w
}

/// A match of a concatenation is a match of each part in turn.
pub proof fn lemma_matches_split(s: Seq<char>, i: int, u: Seq<char>, v: Seq<char>)
    requires
        matches_at(s, i, u + v),
    ensures
        matches_at(s, i, u),
        matches_at(s, i + u.len(), v),
{
    let w = u + v;
    assert(s.subrange(i, i + u.len()) =~= u) by {
        assert(forall|m: int|
            0 <= m < u.len() ==> #[trigger] s.subrange(i, i + u.len())[m] == s.subrange(
                i,
                i + w.len(),
            )[m]);
    }
    assert(s.subrange(i + u.len(), i + u.len() + v.len()) =~= v) by {
        assert(forall|m: int|
            0 <= m < v.len() ==> #[trigger] s.subrange(i + u.len(), i + u.len() + v.len())[m]
                == s.subrange(i, i + w.len())[m + u.len()]);
    }
}

/// The whole of `s` matches at its own start.
pub proof fn lemma_matches_whole(s: Seq<char>)
    ensures
        matches_at(s, 0, s),
{
    assert(s.subrange(0, s.len() as int) =~= s);
}

/// Skipping whitespace at a non-whitespace character stays put.
pub proof fn lemma_skip_ws_at(s: Seq<char>, i: int)
    requires
        0 <= i <= s.len(),
        i == s.len() || !is_ws(s[i]),
    ensures
        skip_ws(s, i) == i,
{
}

/// A fixed word at position `i`: the position after it on a match.
pub open spec fn expect(s: Seq<char>, i: int, w: Seq<char>) -> Option<int> {
    if matches_at(s, i, w) {
        Option::Some(i + w.len())
    } else {
        Option::None
    }
}

/// The spelled form of one character inside quotes: a double quote or a
/// backslash is preceded by a backslash; every other character stands
/// for itself.
pub open spec fn esc_char(c: char) -> Seq<char> {
    if c == '"' || c == '\\' {
        seq!['\\', c]
    } else {
        seq![c]
    }
}

/// The spelled form of a string's characters inside quotes.
pub open spec fn esc(w: Seq<char>) -> Seq<char>
    decreases w.len(),
{
    if w.len() == 0 {
        Seq::empty()
    } else {
        esc_char(w[0]) + esc(w.drop_first())
    }
}

/// `w` between double quotes, its quotes and backslashes escaped.
pub open spec fn ser_quoted(w: Seq<char>) -> Seq<char> {
    seq!['"'] + (esc(w) + seq!['"'])
}

/// Characters up to the closing double quote; a backslash escapes the
/// following quote or backslash, and any other escape is an error.
pub open spec fn scan_string(s: Seq<char>, i: int) -> Option<(Seq<char>, int)>
    decreases s.len() - i,
{
    if i < 0 || i >= s.len() {
        Option::None
    } else if s[i] == '"' {
        Option::Some((Seq::empty(), i + 1))
    } else if s[i] == '\\' {
        if i + 1 < s.len() && (s[i + 1] == '"' || s[i + 1] == '\\') {
            match scan_string(s, i + 2) {
                Option::Some((w, j)) => Option::Some((seq![s[i + 1]] + w, j)),
                Option::None => Option::None,
            }
        } else {
            Option::None
        }
    } else {
        match scan_string(s, i + 1) {
            Option::Some((w, j)) => Option::Some((seq![s[i]] + w, j)),
            Option::None => Option::None,
        }
    }
}

pub proof fn lemma_scan_string_bounds(s: Seq<char>, i: int)
    requires
        0 <= i <= s.len(),
    ensures
        match scan_string(s, i) {
            Option::Some((w, j)) => i + 1 <= j <= s.len(),
            Option::None => true,
        },
    decreases s.len() - i,
{
    if 0 <= i < s.len() && s[i] != '"' {
        if s[i] == '\\' {
            if i + 1 < s.len() && (s[i + 1] == '"' || s[i + 1] == '\\') {
                lemma_scan_string_bounds(s, i + 2);
            }
        } else {
            lemma_scan_string_bounds(s, i + 1);
        }
    }
}

/// Scanning the escaped spelling of a word, right up to its closing
/// quote, yields the word back — whatever characters it holds.
pub proof fn lemma_scan_string_exact(s: Seq<char>, i: int, w: Seq<char>)
    requires
        matches_at(s, i, esc(w) + seq!['"']),
    ensures
        scan_string(s, i) == Option::Some((w, i + esc(w).len() + 1)),
    decreases w.len(),
{
    let whole = esc(w) + seq!['"'];
    assert(s[i] == s.subrange(i, i + whole.len())[0]);
    if w.len() == 0 {
        assert(whole =~= seq!['"']);
        assert(s[i] == '"');
    } else {
        let c = w[0];
        let rest = w.drop_first();
        if c == '"' || c == '\\' {
            assert(whole =~= seq!['\\'] + (seq![c] + (esc(rest) + seq!['"'])));
            lemma_matches_split(s, i, seq!['\\'], seq![c] + (esc(rest) + seq!['"']));
            lemma_matches_split(s, i + 1, seq![c], esc(rest) + seq!['"']);
            assert(s[i] == '\\');
            assert(s[i + 1] == s.subrange(i + 1, i + 2)[0]);
            assert(s[i + 1] == c);
            lemma_scan_string_exact(s, i + 2, rest);
            assert(seq![s[i + 1]] + rest =~= w);
        } else {
            assert(whole =~= seq![c] + (esc(rest) + seq!['"']));
            lemma_matches_split(s, i, seq![c], esc(rest) + seq!['"']);
            assert(s[i] == c);
            assert(s[i] != '"');
            assert(s[i] != '\\');
            lemma_scan_string_exact(s, i + 1, rest);
            assert(seq![s[i]] + rest =~= w);
        }
    }
}

/// A string token: an opening quote, then escaped characters up to the
/// closing quote.
pub open spec fn spec_parse_string(s: Seq<char>, i: int) -> Option<(Seq<char>, int)> {
    if 0 <= i < s.len() && s[i] == '"' {
        scan_string(s, i + 1)
    } else {
        Option::None
    }
}

pub proof fn lemma_parse_string_bounds(s: Seq<char>, i: int)
    ensures
        match spec_parse_string(s, i) {
            Option::Some((w, j)) => i + 2 <= j <= s.len(),
            Option::None => true,
        },
{
    if 0 <= i < s.len() && s[i] == '"' {
        lemma_scan_string_bounds(s, i + 1);
    }
}

/// Parsing the quoted, escaped spelling of any word yields the word.
pub proof fn lemma_parse_string_exact(s: Seq<char>, i: int, w: Seq<char>)
    requires
        matches_at(s, i, ser_quoted(w)),
    ensures
        spec_parse_string(s, i) == Option::Some((w, i + ser_quoted(w).len())),
{
    assert(s[i] == s.subrange(i, i + ser_quoted(w).len())[0]);
    assert(s[i] == '"');
    lemma_matches_split(s, i, seq!['"'], esc(w) + seq!['"']);
    lemma_scan_string_exact(s, i + 1, w);
}

/// Exec mirror of [`skip_ws`].
pub fn skip_ws_at(s: &Vec<char>, i: usize) -> (j: usize)
    requires
        i <= s.len(),
    ensures
        j as int == skip_ws(s@, i as int),
        i <= j <= s.len(),
{
    let mut j: usize = i;
    while j < s.len() && (s[j] == ' ' || s[j] == '\t' || s[j] == '\n' || s[j] == '\r')
        invariant
            i <= j <= s.len(),
            skip_ws(s@, i as int) == skip_ws(s@, j as int),
        decreases s.len() - j,
    {
        j += 1;
    }
    j
}

/// Exec mirror of [`expect`].
pub fn expect_at(s: &Vec<char>, i: usize, w: &str) -> (r: Option<usize>)
    requires
        i <= s.len(),
    ensures
        match r {
            Some(j) => expect(s@, i as int, w@) == Option::Some(j as int) && i <= j <= s.len(),
            None => expect(s@, i as int, w@) is None,
        },
{
    let wc = str_chars(w);
    if s.len() - i < wc.len() {
        return None;
    }
    let mut k: usize = 0;
    while k < wc.len()
        invariant
            i + wc.len() <= s.len(),
            k <= wc.len(),
            wc@ == w@,
            forall|m: int| 0 <= m < k ==> s@[i + m] == w@[m],
        decreases wc.len() - k,
    {
        if s[i + k] != wc[k] {
            assert(s@.subrange(i as int, i + w@.len()) != w@) by {
                assert(s@.subrange(i as int, i + w@.len())[k as int] == s@[i + k]);
            }
            return None;
        }
        k += 1;
    }
    assert(s@.subrange(i as int, i + w@.len()) =~= w@);
    Some(i + wc.len())
}

/// Exec mirror of [`spec_parse_string`].
pub fn parse_string_at(s: &Vec<char>, i: usize) -> (r: Option<(Vec<char>, usize)>)
    requires
        i <= s.len(),
    ensures
        match r {
            Some((w, j)) => spec_parse_string(s@, i as int) == Option::Some((w@, j as int)) && i
                < j <= s.len(),
            None => spec_parse_string(s@, i as int) is None,
        },
{
    if i >= s.len() || s[i] != '"' {
        return None;
    }
    let mut acc: Vec<char> = Vec::new();
    let mut j: usize = i + 1;
    loop
        invariant
            i + 1 <= j <= s.len(),
            scan_string(s@, i as int + 1) == match scan_string(s@, j as int) {
                Option::Some((w, e)) => Option::Some((acc@ + w, e)),
                Option::None => Option::None::<(Seq<char>, int)>,
            },
            0 <= i < s@.len() && s@[i as int] == '"',
        decreases s.len() - j,
    {
        if j >= s.len() {
            assert(scan_string(s@, j as int) is None);
            return None;
        }
        let c = s[j];
        if c == '"' {
            assert(scan_string(s@, j as int) == Option::Some((Seq::<char>::empty(), j + 1)));
            assert(acc@ + Seq::<char>::empty() =~= acc@);
            return Some((acc, j + 1));
        }
        if c == '\\' {
            if j + 1 < s.len() && (s[j + 1] == '"' || s[j + 1] == '\\') {
                let d = s[j + 1];
                acc.push(d);
                proof {
                    let ghost old_acc = acc@.drop_last();
                    assert(forall|w: Seq<char>| (old_acc + (seq![d] + w)) =~= (acc@ + w));
                }
                j += 2;
            } else {
                assert(scan_string(s@, j as int) is None);
                return None;
            }
        } else {
            acc.push(c);
            proof {
                let ghost old_acc = acc@.drop_last();
                assert(forall|w: Seq<char>| (old_acc + (seq![c] + w)) =~= (acc@ + w));
            }
            j += 1;
        }
    }
}

} // verus!

verus! {

/// Append the characters of a literal word.
pub fn push_lit(out: &mut Vec<char>, w: &str)
    ensures
        final(out)@ == old(out)@ + w@,
{
    let mut wc = str_chars(w);
    out.append(&mut wc);
}

/// A field label: optional whitespace, the field's name, optional
/// whitespace, then a colon.
pub open spec fn spec_label(s: Seq<char>, i: int, name: Seq<char>) -> Option<int> {
    let i1 = skip_ws(s, i);
    match expect(s, i1, name) {
        Option::Some(i2) => {
            let i3 = skip_ws(s, i2);
            if 0 <= i3 < s.len() && s[i3] == ':' {
                Option::Some(i3 + 1)
            } else {
                Option::None
            }
        },
        Option::None => Option::None,
    }
}

/// A comma separator after optional whitespace.
pub open spec fn spec_comma(s: Seq<char>, i: int) -> Option<int> {
    let i1 = skip_ws(s, i);
    if 0 <= i1 < s.len() && s[i1] == ',' {
        Option::Some(i1 + 1)
    } else {
        Option::None
    }
}

/// The separator after a record field: a comma, consumed; or the
/// record's closing parenthesis, left in place for the record's close —
/// so the comma after the last field is optional.
pub open spec fn spec_field_sep(s: Seq<char>, i: int) -> Option<int> {
    let i1 = skip_ws(s, i);
    if 0 <= i1 < s.len() && s[i1] == ',' {
        Option::Some(i1 + 1)
    } else if 0 <= i1 < s.len() && s[i1] == ')' {
        Option::Some(i1)
    } else {
        Option::None
    }
}

/// An unsigned 32-bit value after optional whitespace.
pub open spec fn spec_value_u32(s: Seq<char>, i: int) -> Option<(u32, int)> {
    let i1 = skip_ws(s, i);
    match spec_parse_u64(s, i1) {
        Option::Some((v, j)) => if v <= u32::MAX {
            Option::Some((v as u32, j))
        } else {
            Option::None
        },
        Option::None => Option::None,
    }
}

/// An unsigned machine-word value after optional whitespace.
pub open spec fn spec_value_usize(s: Seq<char>, i: int) -> Option<(usize, int)> {
    let i1 = skip_ws(s, i);
    match spec_parse_u64(s, i1) {
        Option::Some((v, j)) => if v <= usize::MAX {
            Option::Some((v as usize, j))
        } else {
            Option::None
        },
        Option::None => Option::None,
    }
}

/// A signed 64-bit value after optional whitespace.
pub open spec fn spec_value_i64(s: Seq<char>, i: int) -> Option<(i64, int)> {
    let i1 = skip_ws(s, i);
    match spec_parse_i64(s, i1) {
        Option::Some((v, j)) => if i64::MIN <= v <= i64::MAX {
            Option::Some((v as i64, j))
        } else {
            Option::None
        },
        Option::None => Option::None,
    }
}

/// A boolean literal after optional whitespace.
pub open spec fn spec_value_bool(s: Seq<char>, i: int) -> Option<(bool, int)> {
    let i1 = skip_ws(s, i);
    match expect(s, i1, "true"@) {
        Option::Some(j) => Option::Some((true, j)),
        Option::None => match expect(s, i1, "false"@) {
            Option::Some(j) => Option::Some((false, j)),
            Option::None => Option::None,
        },
    }
}

/// A quoted string after optional whitespace.
pub open spec fn spec_value_string(s: Seq<char>, i: int) -> Option<(Seq<char>, int)> {
    let i1 = skip_ws(s, i);
    spec_parse_string(s, i1)
}

/// Canonical spelling of a boolean.
pub open spec fn ser_bool(b: bool) -> Seq<char> {
    if b {
        "true"@
    } else {
        "false"@
    }
}

/// One serialized record field: name, colon, value, comma.
pub open spec fn fld(name: Seq<char>, v: Seq<char>) -> Seq<char> {
    name + (seq![':'] + (v + seq![',']))
}

pub proof fn lemma_label_exact(s: Seq<char>, i: int, name: Seq<char>)
    requires
        matches_at(s, i, name + seq![':']),
        name.len() >= 1,
        !is_ws(name[0]),
    ensures
        spec_label(s, i, name) == Option::Some(i + name.len() + 1),
{
    lemma_matches_split(s, i, name, seq![':']);
    assert(s[i] == s.subrange(i, i + name.len())[0]);
    lemma_skip_ws_at(s, i);
    let i2 = i + name.len();
    assert(s[i2] == s.subrange(i2, i2 + 1)[0]);
    assert(s[i2] == ':');
    lemma_skip_ws_at(s, i2);
}

pub proof fn lemma_comma_exact(s: Seq<char>, i: int)
    requires
        0 <= i < s.len(),
        s[i] == ',',
    ensures
        spec_comma(s, i) == Option::Some(i + 1),
{
    lemma_skip_ws_at(s, i);
}

pub proof fn lemma_value_u32_exact(s: Seq<char>, i: int, v: u32)
    requires
        matches_at(s, i, dec_rep(v as nat)),
        i + dec_rep(v as nat).len() == s.len() || !is_digit(s[i + dec_rep(v as nat).len()]),
    ensures
        spec_value_u32(s, i) == Option::Some((v, i + dec_rep(v as nat).len())),
{
    lemma_dec_rep(v as nat);
    assert(s[i] == s.subrange(i, i + dec_rep(v as nat).len())[0]);
    assert(is_digit(s[i]));
    lemma_skip_ws_at(s, i);
    lemma_parse_u64_exact(s, i, v as u64);
}

pub proof fn lemma_value_usize_exact(s: Seq<char>, i: int, v: usize)
    requires
        matches_at(s, i, dec_rep(v as nat)),
        i + dec_rep(v as nat).len() == s.len() || !is_digit(s[i + dec_rep(v as nat).len()]),
    ensures
        spec_value_usize(s, i) == Option::Some((v, i + dec_rep(v as nat).len())),
{
    lemma_dec_rep(v as nat);
    assert(s[i] == s.subrange(i, i + dec_rep(v as nat).len())[0]);
    assert(is_digit(s[i]));
    lemma_skip_ws_at(s, i);
    lemma_parse_u64_exact(s, i, v as u64);
}

pub proof fn lemma_value_i64_exact(s: Seq<char>, i: int, v: i64)
    requires
        matches_at(s, i, dec_rep_i64(v as int)),
        i + dec_rep_i64(v as int).len() == s.len() || !is_digit(
            s[i + dec_rep_i64(v as int).len()],
        ),
    ensures
        spec_value_i64(s, i) == Option::Some((v, i + dec_rep_i64(v as int).len())),
{
    assert(s[i] == s.subrange(i, i + dec_rep_i64(v as int).len())[0]);
    if v < 0 {
        assert(dec_rep_i64(v as int)[0] == '-');
        assert(s[i] == '-');
    } else {
        lemma_dec_rep(v as nat);
        assert(is_digit(s[i]));
    }
    lemma_skip_ws_at(s, i);
    lemma_parse_i64_exact(s, i, v);
}

pub proof fn lemma_value_bool_exact(s: Seq<char>, i: int, b: bool)
    requires
        matches_at(s, i, ser_bool(b)),
    ensures
        spec_value_bool(s, i) == Option::Some((b, i + ser_bool(b).len())),
{
    reveal_strlit("true");
    reveal_strlit("false");
    assert(s[i] == s.subrange(i, i + ser_bool(b).len())[0]);
    if b {
        assert(s[i] == 't');
    } else {
        assert(s[i] == 'f');
    }
    lemma_skip_ws_at(s, i);
    if b {
        assert(matches_at(s, i, "true"@));
    } else {
        assert(!matches_at(s, i, "true"@)) by {
            if matches_at(s, i, "true"@) {
                assert(s[i] == s.subrange(i, i + 4)[0]);
            }
        }
        assert(matches_at(s, i, "false"@));
    }
}

pub proof fn lemma_value_string_exact(s: Seq<char>, i: int, w: Seq<char>)
    requires
        matches_at(s, i, ser_quoted(w)),
    ensures
        spec_value_string(s, i) == Option::Some((w, i + ser_quoted(w).len())),
{
    assert(s[i] == s.subrange(i, i + ser_quoted(w).len())[0]);
    assert(s[i] == '"');
    lemma_skip_ws_at(s, i);
    lemma_parse_string_exact(s, i, w);
}

/// Exec mirror of [`spec_label`].
pub fn label_at(s: &Vec<char>, i: usize, name: &str) -> (r: Option<usize>)
    requires
        i <= s.len(),
    ensures
        match r {
            Some(j) => spec_label(s@, i as int, name@) == Option::Some(j as int) && i <= j
                <= s.len(),
            None => spec_label(s@, i as int, name@) is None,
        },
{
    let i1 = skip_ws_at(s, i);
    match expect_at(s, i1, name) {
        Some(i2) => {
            let i3 = skip_ws_at(s, i2);
            if i3 < s.len() && s[i3] == ':' {
                Some(i3 + 1)
            } else {
                None
            }
        },
        None => None,
    }
}

/// Exec mirror of [`spec_comma`].
pub fn comma_at(s: &Vec<char>, i: usize) -> (r: Option<usize>)
    requires
        i <= s.len(),
    ensures
        match r {
            Some(j) => spec_comma(s@, i as int) == Option::Some(j as int) && i < j <= s.len(),
            None => spec_comma(s@, i as int) is None,
        },
{
    let i1 = skip_ws_at(s, i);
    if i1 < s.len() && s[i1] == ',' {
        Some(i1 + 1)
    } else {
        None
    }
}

/// Exec mirror of [`spec_field_sep`].
pub fn field_sep_at(s: &Vec<char>, i: usize) -> (r: Option<usize>)
    requires
        i <= s.len(),
    ensures
        match r {
            Some(j) => spec_field_sep(s@, i as int) == Option::Some(j as int) && i <= j
                <= s.len(),
            None => spec_field_sep(s@, i as int) is None,
        },
{
    let i1 = skip_ws_at(s, i);
    if i1 < s.len() && s[i1] == ',' {
        Some(i1 + 1)
    } else if i1 < s.len() && s[i1] == ')' {
        Some(i1)
    } else {
        None
    }
}

/// Exec mirror of [`spec_value_u32`].
pub fn value_u32_at(s: &Vec<char>, i: usize) -> (r: Option<(u32, usize)>)
    requires
        i <= s.len(),
    ensures
        match r {
            Some((v, j)) => spec_value_u32(s@, i as int) == Option::Some((v, j as int)) && i < j
                <= s.len(),
            None => spec_value_u32(s@, i as int) is None,
        },
{
    let i1 = skip_ws_at(s, i);
    match parse_u64_at(s, i1) {
        Some((v, j)) => {
            if v <= u32::MAX as u64 {
                Some((v as u32, j))
            } else {
                None
            }
        },
        None => None,
    }
}

/// Exec mirror of [`spec_value_usize`].
pub fn value_usize_at(s: &Vec<char>, i: usize) -> (r: Option<(usize, usize)>)
    requires
        i <= s.len(),
    ensures
        match r {
            Some((v, j)) => spec_value_usize(s@, i as int) == Option::Some((v, j as int)) && i
                < j <= s.len(),
            None => spec_value_usize(s@, i as int) is None,
        },
{
    let i1 = skip_ws_at(s, i);
    match parse_u64_at(s, i1) {
        Some((v, j)) => {
            if v <= usize::MAX as u64 {
                Some((v as usize, j))
            } else {
                None
            }
        },
        None => None,
    }
}

/// Exec mirror of [`spec_value_i64`].
pub fn value_i64_at(s: &Vec<char>, i: usize) -> (r: Option<(i64, usize)>)
    requires
        i <= s.len(),
    ensures
        match r {
            Some((v, j)) => spec_value_i64(s@, i as int) == Option::Some((v, j as int)) && i < j
                <= s.len(),
            None => spec_value_i64(s@, i as int) is None,
        },
{
    let i1 = skip_ws_at(s, i);
    match parse_i64_at(s, i1) {
        Some((v, j)) => Some((v, j)),
        None => None,
    }
}

/// Exec mirror of [`spec_value_bool`].
pub fn value_bool_at(s: &Vec<char>, i: usize) -> (r: Option<(bool, usize)>)
    requires
        i <= s.len(),
    ensures
        match r {
            Some((v, j)) => spec_value_bool(s@, i as int) == Option::Some((v, j as int)) && i
                < j <= s.len(),
            None => spec_value_bool(s@, i as int) is None,
        },
{
    let i1 = skip_ws_at(s, i);
    match expect_at(s, i1, "true") {
        Some(j) => {
            proof {
                reveal_strlit("true");
            }
            Some((true, j))
        },
        None => match expect_at(s, i1, "false") {
            Some(j) => {
                proof {
                    reveal_strlit("false");
                }
                Some((false, j))
            },
            None => None,
        },
    }
}

/// Exec mirror of [`spec_value_string`].
pub fn value_string_at(s: &Vec<char>, i: usize) -> (r: Option<(Vec<char>, usize)>)
    requires
        i <= s.len(),
    ensures
        match r {
            Some((w, j)) => spec_value_string(s@, i as int) == Option::Some((w@, j as int)) && i
                < j <= s.len(),
            None => spec_value_string(s@, i as int) is None,
        },
{
    let i1 = skip_ws_at(s, i);
    parse_string_at(s, i1)
}

} // verus!

verus! {

/// Canonical spelling of one tile: `None`, `Tile(idx)` or
/// `Door(idx, room)`.
pub open spec fn ser_tile(t: TileData) -> Seq<char> {
    match t {
        TileData::Empty => "None"@,
        TileData::Tile(p) => "Tile"@ + (seq!['('] + (dec_rep(p as nat) + seq![')'])),
        TileData::Door(p, r) => "Door"@ + (seq!['('] + (dec_rep(p as nat) + (seq![','] + (
        dec_rep(r as nat) + seq![')'])))),
    }
}

/// A tile token: one of the three tagged variants.
pub open spec fn spec_parse_tile(s: Seq<char>, i: int) -> Option<(TileData, int)> {
    match expect(s, i, "Door"@) {
        Option::Some(j0) => {
            let j1 = skip_ws(s, j0);
            if 0 <= j1 < s.len() && s[j1] == '(' {
                match spec_value_u32(s, j1 + 1) {
                    Option::Some((p, j2)) => match spec_comma(s, j2) {
                        Option::Some(j3) => match spec_value_u32(s, j3) {
                            Option::Some((r, j4)) => {
                                let j5 = skip_ws(s, j4);
                                if 0 <= j5 < s.len() && s[j5] == ')' {
                                    Option::Some((TileData::Door(p, r), j5 + 1))
                                } else {
                                    Option::None
                                }
                            },
                            Option::None => Option::None,
                        },
                        Option::None => Option::None,
                    },
                    Option::None => Option::None,
                }
            } else {
                Option::None
            }
        },
        Option::None => match expect(s, i, "Tile"@) {
            Option::Some(j0) => {
                let j1 = skip_ws(s, j0);
                if 0 <= j1 < s.len() && s[j1] == '(' {
                    match spec_value_u32(s, j1 + 1) {
                        Option::Some((p, j2)) => {
                            let j3 = skip_ws(s, j2);
                            if 0 <= j3 < s.len() && s[j3] == ')' {
                                Option::Some((TileData::Tile(p), j3 + 1))
                            } else {
                                Option::None
                            }
                        },
                        Option::None => Option::None,
                    }
                } else {
                    Option::None
                }
            },
            Option::None => match expect(s, i, "None"@) {
                Option::Some(j0) => Option::Some((TileData::Empty, j0)),
                Option::None => Option::None,
            },
        },
    }
}

pub proof fn lemma_value_u32_bounds(s: Seq<char>, i: int)
    requires
        0 <= i <= s.len(),
    ensures
        match spec_value_u32(s, i) {
            Option::Some((v, j)) => i < j <= s.len(),
            Option::None => true,
        },
{
    lemma_skip_ws_bounds(s, i);
    lemma_parse_u64_bounds(s, skip_ws(s, i));
}

pub proof fn lemma_value_usize_bounds(s: Seq<char>, i: int)
    requires
        0 <= i <= s.len(),
    ensures
        match spec_value_usize(s, i) {
            Option::Some((v, j)) => i < j <= s.len(),
            Option::None => true,
        },
{
    lemma_skip_ws_bounds(s, i);
    lemma_parse_u64_bounds(s, skip_ws(s, i));
}

pub proof fn lemma_value_string_bounds(s: Seq<char>, i: int)
    requires
        0 <= i <= s.len(),
    ensures
        match spec_value_string(s, i) {
            Option::Some((w, j)) => i < j <= s.len(),
            Option::None => true,
        },
{
    lemma_skip_ws_bounds(s, i);
    lemma_parse_string_bounds(s, skip_ws(s, i));
}

pub proof fn lemma_comma_bounds(s: Seq<char>, i: int)
    requires
        0 <= i <= s.len(),
    ensures
        match spec_comma(s, i) {
            Option::Some(j) => i < j <= s.len(),
            Option::None => true,
        },
{
    lemma_skip_ws_bounds(s, i);
}

pub proof fn lemma_parse_tile_bounds(s: Seq<char>, i: int)
    requires
        0 <= i <= s.len(),
    ensures
        match spec_parse_tile(s, i) {
            Option::Some((t, j)) => i < j <= s.len(),
            Option::None => true,
        },
{
    reveal_strlit("Door");
    reveal_strlit("Tile");
    reveal_strlit("None");
    match expect(s, i, "Door"@) {
        Option::Some(j0) => {
            lemma_skip_ws_bounds(s, j0);
            let j1 = skip_ws(s, j0);
            if 0 <= j1 < s.len() && s[j1] == '(' {
                lemma_value_u32_bounds(s, j1 + 1);
                match spec_value_u32(s, j1 + 1) {
                    Option::Some((p, j2)) => {
                        lemma_comma_bounds(s, j2);
                        match spec_comma(s, j2) {
                            Option::Some(j3) => {
                                lemma_value_u32_bounds(s, j3);
                                match spec_value_u32(s, j3) {
                                    Option::Some((r, j4)) => {
                                        lemma_skip_ws_bounds(s, j4);
                                    },
                                    Option::None => {},
                                }
                            },
                            Option::None => {},
                        }
                    },
                    Option::None => {},
                }
            }
        },
        Option::None => {
            match expect(s, i, "Tile"@) {
                Option::Some(j0) => {
                    lemma_skip_ws_bounds(s, j0);
                    let j1 = skip_ws(s, j0);
                    if 0 <= j1 < s.len() && s[j1] == '(' {
                        lemma_value_u32_bounds(s, j1 + 1);
                        match spec_value_u32(s, j1 + 1) {
                            Option::Some((p, j2)) => {
                                lemma_skip_ws_bounds(s, j2);
                            },
                            Option::None => {},
                        }
                    }
                },
                Option::None => {},
            }
        },
    }
}

/// Parsing the canonical spelling of a tile recovers it.
pub proof fn lemma_tile_exact(s: Seq<char>, i: int, t: TileData)
    requires
        matches_at(s, i, ser_tile(t)),
    ensures
        spec_parse_tile(s, i) == Option::Some((t, i + ser_tile(t).len())),
{
    reveal_strlit("Door");
    reveal_strlit("Tile");
    reveal_strlit("None");
    match t {
        TileData::Empty => {
            assert(s[i] == s.subrange(i, i + 4)[0]);
            assert(s[i] == 'N');
            assert(!matches_at(s, i, "Door"@)) by {
                if matches_at(s, i, "Door"@) {
                    assert(s[i] == s.subrange(i, i + 4)[0]);
                }
            }
            assert(!matches_at(s, i, "Tile"@)) by {
                if matches_at(s, i, "Tile"@) {
                    assert(s[i] == s.subrange(i, i + 4)[0]);
                }
            }
        },
        TileData::Tile(p) => {
            let dp = dec_rep(p as nat);
            let w = ser_tile(t);
            assert(s[i] == s.subrange(i, i + w.len())[0]);
            assert(s[i] == 'T');
            assert(!matches_at(s, i, "Door"@)) by {
                if matches_at(s, i, "Door"@) {
                    assert(s[i] == s.subrange(i, i + 4)[0]);
                }
            }
            lemma_matches_split(s, i, "Tile"@, seq!['('] + (dp + seq![')']));
            let a = i + 4;
            lemma_matches_split(s, a, seq!['('], dp + seq![')']);
            assert(s[a] == s.subrange(a, a + 1)[0]);
            assert(s[a] == '(');
            lemma_skip_ws_at(s, a);
            lemma_matches_split(s, a + 1, dp, seq![')']);
            let b = a + 1 + dp.len();
            assert(s[b] == s.subrange(b, b + 1)[0]);
            assert(s[b] == ')');
            lemma_value_u32_exact(s, a + 1, p);
            lemma_skip_ws_at(s, b);
        },
        TileData::Door(p, r) => {
            let dp = dec_rep(p as nat);
            let dr = dec_rep(r as nat);
            let w = ser_tile(t);
            assert(s[i] == s.subrange(i, i + w.len())[0]);
            assert(s[i] == 'D');
            lemma_matches_split(s, i, "Door"@, seq!['('] + (dp + (seq![','] + (dr + seq![')']))));
            let a = i + 4;
            lemma_matches_split(s, a, seq!['('], dp + (seq![','] + (dr + seq![')'])));
            assert(s[a] == s.subrange(a, a + 1)[0]);
            assert(s[a] == '(');
            lemma_skip_ws_at(s, a);
            lemma_matches_split(s, a + 1, dp, seq![','] + (dr + seq![')']));
            let b = a + 1 + dp.len();
            lemma_matches_split(s, b, seq![','], dr + seq![')']);
            assert(s[b] == s.subrange(b, b + 1)[0]);
            assert(s[b] == ',');
            lemma_value_u32_exact(s, a + 1, p);
            lemma_comma_exact(s, b);
            lemma_matches_split(s, b + 1, dr, seq![')']);
            let c = b + 1 + dr.len();
            assert(s[c] == s.subrange(c, c + 1)[0]);
            assert(s[c] == ')');
            lemma_value_u32_exact(s, b + 1, r);
            lemma_skip_ws_at(s, c);
        },
    }
}

/// A tile value after optional whitespace.
pub open spec fn spec_value_tile(s: Seq<char>, i: int) -> Option<(TileData, int)> {
    spec_parse_tile(s, skip_ws(s, i))
}

pub proof fn lemma_value_tile_bounds(s: Seq<char>, i: int)
    requires
        0 <= i <= s.len(),
    ensures
        match spec_value_tile(s, i) {
            Option::Some((t, j)) => i < j <= s.len(),
            Option::None => true,
        },
{
    lemma_skip_ws_bounds(s, i);
    lemma_parse_tile_bounds(s, skip_ws(s, i));
}

pub proof fn lemma_value_tile_exact(s: Seq<char>, i: int, t: TileData)
    requires
        matches_at(s, i, ser_tile(t)),
    ensures
        spec_value_tile(s, i) == Option::Some((t, i + ser_tile(t).len())),
{
    reveal_strlit("Door");
    reveal_strlit("Tile");
    reveal_strlit("None");
    assert(s[i] == s.subrange(i, i + ser_tile(t).len())[0]);
    assert(!is_ws(s[i])) by {
        match t {
            TileData::Empty => {
                assert(s[i] == 'N');
            },
            TileData::Tile(p) => {
                assert(s[i] == 'T');
            },
            TileData::Door(p, r) => {
                assert(s[i] == 'D');
            },
        }
    }
    lemma_skip_ws_at(s, i);
    lemma_tile_exact(s, i, t);
}

/// Canonical spelling of one sparse tile assignment: `index:tile`.
pub open spec fn ser_tile_entry(e: TileEntry) -> Seq<char> {
    dec_rep(e.index as nat) + (seq![':'] + ser_tile(e.tile))
}

/// One map entry: an index, a colon, a tile.
pub open spec fn spec_parse_tile_entry(s: Seq<char>, i: int) -> Option<(TileEntry, int)> {
    match spec_value_usize(s, i) {
        Option::Some((idx, j1)) => {
            let j2 = skip_ws(s, j1);
            if 0 <= j2 < s.len() && s[j2] == ':' {
                match spec_value_tile(s, j2 + 1) {
                    Option::Some((t, j3)) => Option::Some((TileEntry { index: idx, tile: t }, j3)),
                    Option::None => Option::None,
                }
            } else {
                Option::None
            }
        },
        Option::None => Option::None,
    }
}

pub proof fn lemma_parse_tile_entry_bounds(s: Seq<char>, i: int)
    requires
        0 <= i <= s.len(),
    ensures
        match spec_parse_tile_entry(s, i) {
            Option::Some((e, j)) => i < j <= s.len(),
            Option::None => true,
        },
{
    lemma_value_usize_bounds(s, i);
    match spec_value_usize(s, i) {
        Option::Some((idx, j1)) => {
            lemma_skip_ws_bounds(s, j1);
            let j2 = skip_ws(s, j1);
            if 0 <= j2 < s.len() && s[j2] == ':' {
                lemma_value_tile_bounds(s, j2 + 1);
            }
        },
        Option::None => {},
    }
}

/// Parsing the canonical spelling of a tile assignment recovers it.
pub proof fn lemma_tile_entry_exact(s: Seq<char>, i: int, e: TileEntry)
    requires
        matches_at(s, i, ser_tile_entry(e)),
    ensures
        spec_parse_tile_entry(s, i) == Option::Some((e, i + ser_tile_entry(e).len())),
{
    let di = dec_rep(e.index as nat);
    lemma_matches_split(s, i, di, seq![':'] + ser_tile(e.tile));
    let a = i + di.len();
    lemma_matches_split(s, a, seq![':'], ser_tile(e.tile));
    assert(s[a] == s.subrange(a, a + 1)[0]);
    assert(s[a] == ':');
    lemma_value_usize_exact(s, i, e.index);
    lemma_skip_ws_at(s, a);
    lemma_value_tile_exact(s, a + 1, e.tile);
}

/// Canonical spelling of the sparse tile map's entries, each with its
/// trailing comma.
pub open spec fn ser_tile_entries(es: Seq<TileEntry>) -> Seq<char>
    decreases es.len(),
{
    if es.len() == 0 {
        Seq::empty()
    } else {
        ser_tile_entry(es[0]) + (seq![','] + ser_tile_entries(es.drop_first()))
    }
}

/// The entries of a tile map up to and including the closing brace:
/// entries separated by commas, an optional trailing comma.
pub open spec fn spec_parse_tile_entries(s: Seq<char>, i: int) -> Option<(Seq<TileEntry>, int)>
    decreases s.len() - i,
        when 0 <= i <= s.len()
        via spec_parse_tile_entries_dec
{
    let i1 = skip_ws(s, i);
    if !(0 <= i1 < s.len()) {
        Option::None
    } else if s[i1] == '}' {
        Option::Some((Seq::empty(), i1 + 1))
    } else {
        match spec_parse_tile_entry(s, i1) {
            Option::Some((e, i2)) => {
                let i3 = skip_ws(s, i2);
                if 0 <= i3 < s.len() && s[i3] == ',' {
                    match spec_parse_tile_entries(s, i3 + 1) {
                        Option::Some((rest, i4)) => Option::Some((seq![e] + rest, i4)),
                        Option::None => Option::None,
                    }
                } else if 0 <= i3 < s.len() && s[i3] == '}' {
                    Option::Some((seq![e], i3 + 1))
                } else {
                    Option::None
                }
            },
            Option::None => Option::None,
        }
    }
}

#[via_fn]
proof fn spec_parse_tile_entries_dec(s: Seq<char>, i: int) {
    lemma_skip_ws_bounds(s, i);
    let i1 = skip_ws(s, i);
    if 0 <= i1 < s.len() && s[i1] != '}' {
        lemma_parse_tile_entry_bounds(s, i1);
        match spec_parse_tile_entry(s, i1) {
            Option::Some((e, i2)) => {
                lemma_skip_ws_bounds(s, i2);
            },
            Option::None => {},
        }
    }
}

pub proof fn lemma_parse_tile_entries_bounds(s: Seq<char>, i: int)
    requires
        0 <= i <= s.len(),
    ensures
        match spec_parse_tile_entries(s, i) {
            Option::Some((es, j)) => i < j <= s.len(),
            Option::None => true,
        },
    decreases s.len() - i,
{
    lemma_skip_ws_bounds(s, i);
    let i1 = skip_ws(s, i);
    if 0 <= i1 < s.len() && s[i1] != '}' {
        lemma_parse_tile_entry_bounds(s, i1);
        match spec_parse_tile_entry(s, i1) {
            Option::Some((e, i2)) => {
                lemma_skip_ws_bounds(s, i2);
                let i3 = skip_ws(s, i2);
                if 0 <= i3 < s.len() && s[i3] == ',' {
                    lemma_parse_tile_entries_bounds(s, i3 + 1);
                }
            },
            Option::None => {},
        }
    }
}

/// Parsing the canonical spelling of a tile map's entries, up to the
/// closing brace, recovers the entries in order.
pub proof fn lemma_tile_entries_exact(s: Seq<char>, i: int, es: Seq<TileEntry>)
    requires
        matches_at(s, i, ser_tile_entries(es) + seq!['}']),
    ensures
        spec_parse_tile_entries(s, i) == Option::Some((es, i + ser_tile_entries(es).len() + 1)),
    decreases es.len(),
{
    if es.len() == 0 {
        assert(ser_tile_entries(es) + seq!['}'] =~= seq!['}']);
        assert(s[i] == s.subrange(i, i + 1)[0]);
        assert(s[i] == '}');
        lemma_skip_ws_at(s, i);
    } else {
        let e0 = es[0];
        let w0 = ser_tile_entry(e0);
        let rest_ser = ser_tile_entries(es.drop_first());
        assert(ser_tile_entries(es) + seq!['}'] =~= w0 + (seq![','] + (rest_ser + seq!['}'])));
        lemma_matches_split(s, i, w0, seq![','] + (rest_ser + seq!['}']));
        let a = i + w0.len();
        lemma_matches_split(s, a, seq![','], rest_ser + seq!['}']);
        assert(s[a] == s.subrange(a, a + 1)[0]);
        assert(s[a] == ',');
        lemma_tile_entry_exact(s, i, e0);
        assert(s[i] == s.subrange(i, i + w0.len())[0]);
        assert(s[i] == w0[0]);
        lemma_dec_rep(e0.index as nat);
        assert(is_digit(w0[0])) by {
            assert(w0[0] == dec_rep(e0.index as nat)[0]);
        }
        lemma_skip_ws_at(s, i);
        assert(s[i] != '}');
        lemma_skip_ws_at(s, a);
        lemma_tile_entries_exact(s, a + 1, es.drop_first());
        assert(seq![e0] + es.drop_first() =~= es);
    }
}

} // verus!

verus! {

/// Canonical spelling of one property: `"key":"value"`.
pub open spec fn ser_prop_entry(p: PropEntryView) -> Seq<char> {
    ser_quoted(p.key) + (seq![':'] + ser_quoted(p.value))
}

/// One map entry: a string key, a colon, a string value.
pub open spec fn spec_parse_prop_entry(s: Seq<char>, i: int) -> Option<(PropEntryView, int)> {
    match spec_value_string(s, i) {
        Option::Some((k, j1)) => {
            let j2 = skip_ws(s, j1);
            if 0 <= j2 < s.len() && s[j2] == ':' {
                match spec_value_string(s, j2 + 1) {
                    Option::Some((v, j3)) => Option::Some(
                        (PropEntryView { key: k, value: v }, j3),
                    ),
                    Option::None => Option::None,
                }
            } else {
                Option::None
            }
        },
        Option::None => Option::None,
    }
}

pub proof fn lemma_parse_prop_entry_bounds(s: Seq<char>, i: int)
    requires
        0 <= i <= s.len(),
    ensures
        match spec_parse_prop_entry(s, i) {
            Option::Some((e, j)) => i < j <= s.len(),
            Option::None => true,
        },
{
    lemma_value_string_bounds(s, i);
    match spec_value_string(s, i) {
        Option::Some((k, j1)) => {
            lemma_skip_ws_bounds(s, j1);
            let j2 = skip_ws(s, j1);
            if 0 <= j2 < s.len() && s[j2] == ':' {
                lemma_value_string_bounds(s, j2 + 1);
            }
        },
        Option::None => {},
    }
}

/// Parsing the canonical spelling of a property recovers it.
pub proof fn lemma_prop_entry_exact(s: Seq<char>, i: int, e: PropEntryView)
    requires
        matches_at(s, i, ser_prop_entry(e)),
    ensures
        spec_parse_prop_entry(s, i) == Option::Some((e, i + ser_prop_entry(e).len())),
{
    let qk = ser_quoted(e.key);
    lemma_matches_split(s, i, qk, seq![':'] + ser_quoted(e.value));
    let a = i + qk.len();
    lemma_matches_split(s, a, seq![':'], ser_quoted(e.value));
    assert(s[a] == s.subrange(a, a + 1)[0]);
    assert(s[a] == ':');
    lemma_value_string_exact(s, i, e.key);
    lemma_skip_ws_at(s, a);
    lemma_value_string_exact(s, a + 1, e.value);
}

/// Canonical spelling of the property map's entries, each with its
/// trailing comma.
pub open spec fn ser_prop_entries(es: Seq<PropEntryView>) -> Seq<char>
    decreases es.len(),
{
    if es.len() == 0 {
        Seq::empty()
    } else {
        ser_prop_entry(es[0]) + (seq![','] + ser_prop_entries(es.drop_first()))
    }
}

/// The entries of a property map up to and including the closing brace.
pub open spec fn spec_parse_prop_entries(s: Seq<char>, i: int) -> Option<
    (Seq<PropEntryView>, int),
>
    decreases s.len() - i,
        when 0 <= i <= s.len()
        via spec_parse_prop_entries_dec
{
    let i1 = skip_ws(s, i);
    if !(0 <= i1 < s.len()) {
        Option::None
    } else if s[i1] == '}' {
        Option::Some((Seq::empty(), i1 + 1))
    } else {
        match spec_parse_prop_entry(s, i1) {
            Option::Some((e, i2)) => {
                let i3 = skip_ws(s, i2);
                if 0 <= i3 < s.len() && s[i3] == ',' {
                    match spec_parse_prop_entries(s, i3 + 1) {
                        Option::Some((rest, i4)) => Option::Some((seq![e] + rest, i4)),
                        Option::None => Option::None,
                    }
                } else if 0 <= i3 < s.len() && s[i3] == '}' {
                    Option::Some((seq![e], i3 + 1))
                } else {
                    Option::None
                }
            },
            Option::None => Option::None,
        }
    }
}

#[via_fn]
proof fn spec_parse_prop_entries_dec(s: Seq<char>, i: int) {
    lemma_skip_ws_bounds(s, i);
    let i1 = skip_ws(s, i);
    if 0 <= i1 < s.len() && s[i1] != '}' {
        lemma_parse_prop_entry_bounds(s, i1);
        match spec_parse_prop_entry(s, i1) {
            Option::Some((e, i2)) => {
                lemma_skip_ws_bounds(s, i2);
            },
            Option::None => {},
        }
    }
}

pub proof fn lemma_parse_prop_entries_bounds(s: Seq<char>, i: int)
    requires
        0 <= i <= s.len(),
    ensures
        match spec_parse_prop_entries(s, i) {
            Option::Some((es, j)) => i < j <= s.len(),
            Option::None => true,
        },
    decreases s.len() - i,
{
    lemma_skip_ws_bounds(s, i);
    let i1 = skip_ws(s, i);
    if 0 <= i1 < s.len() && s[i1] != '}' {
        lemma_parse_prop_entry_bounds(s, i1);
        match spec_parse_prop_entry(s, i1) {
            Option::Some((e, i2)) => {
                lemma_skip_ws_bounds(s, i2);
                let i3 = skip_ws(s, i2);
                if 0 <= i3 < s.len() && s[i3] == ',' {
                    lemma_parse_prop_entries_bounds(s, i3 + 1);
                }
            },
            Option::None => {},
        }
    }
}

/// Parsing the canonical spelling of a property map's entries, up to the
/// closing brace, recovers the entries in order.
pub proof fn lemma_prop_entries_exact(s: Seq<char>, i: int, es: Seq<PropEntryView>)
    requires
        matches_at(s, i, ser_prop_entries(es) + seq!['}']),
    ensures
        spec_parse_prop_entries(s, i) == Option::Some((es, i + ser_prop_entries(es).len() + 1)),
    decreases es.len(),
{
    if es.len() == 0 {
        assert(ser_prop_entries(es) + seq!['}'] =~= seq!['}']);
        assert(s[i] == s.subrange(i, i + 1)[0]);
        assert(s[i] == '}');
        lemma_skip_ws_at(s, i);
    } else {
        let e0 = es[0];
        let w0 = ser_prop_entry(e0);
        let rest_ser = ser_prop_entries(es.drop_first());
        assert(ser_prop_entries(es) + seq!['}'] =~= w0 + (seq![','] + (rest_ser + seq!['}'])));
        lemma_matches_split(s, i, w0, seq![','] + (rest_ser + seq!['}']));
        let a = i + w0.len();
        lemma_matches_split(s, a, seq![','], rest_ser + seq!['}']);
        assert(s[a] == s.subrange(a, a + 1)[0]);
        assert(s[a] == ',');
        lemma_prop_entry_exact(s, i, e0);
        assert(s[i] == s.subrange(i, i + w0.len())[0]);
        assert(s[i] == w0[0]);
        assert(s[i] == '"');
        lemma_skip_ws_at(s, i);
        assert(s[i] != '}');
        lemma_skip_ws_at(s, a);
        assert(forall|m: int| 0 <= m < es.drop_first().len() ==> es.drop_first()[m] == es[m + 1]);
        lemma_prop_entries_exact(s, a + 1, es.drop_first());
        assert(seq![e0] + es.drop_first() =~= es);
    }
}

} // verus!

verus! {

/// Exec mirror of [`spec_value_tile`].
pub fn value_tile_at(s: &Vec<char>, i: usize) -> (r: Option<(TileData, usize)>)
    requires
        i <= s.len(),
    ensures
        match r {
            Some((t, j)) => spec_value_tile(s@, i as int) == Option::Some((t, j as int)) && i
                < j <= s.len(),
            None => spec_value_tile(s@, i as int) is None,
        },
{
    proof {
        reveal_strlit("Door");
        reveal_strlit("Tile");
        reveal_strlit("None");
    }
    let i0 = skip_ws_at(s, i);
    match expect_at(s, i0, "Door") {
        Some(j0) => {
            let j1 = skip_ws_at(s, j0);
            if j1 < s.len() && s[j1] == '(' {
                match value_u32_at(s, j1 + 1) {
                    Some((p, j2)) => match comma_at(s, j2) {
                        Some(j3) => match value_u32_at(s, j3) {
                            Some((rm, j4)) => {
                                let j5 = skip_ws_at(s, j4);
                                if j5 < s.len() && s[j5] == ')' {
                                    Some((TileData::Door(p, rm), j5 + 1))
                                } else {
                                    None
                                }
                            },
                            None => None,
                        },
                        None => None,
                    },
                    None => None,
                }
            } else {
                None
            }
        },
        None => match expect_at(s, i0, "Tile") {
            Some(j0) => {
                let j1 = skip_ws_at(s, j0);
                if j1 < s.len() && s[j1] == '(' {
                    match value_u32_at(s, j1 + 1) {
                        Some((p, j2)) => {
                            let j3 = skip_ws_at(s, j2);
                            if j3 < s.len() && s[j3] == ')' {
                                Some((TileData::Tile(p), j3 + 1))
                            } else {
                                None
                            }
                        },
                        None => None,
                    }
                } else {
                    None
                }
            },
            None => match expect_at(s, i0, "None") {
                Some(j0) => Some((TileData::Empty, j0)),
                None => None,
            },
        },
    }
}

/// Exec mirror of [`spec_parse_tile_entry`].
pub fn tile_entry_at(s: &Vec<char>, i: usize) -> (r: Option<(TileEntry, usize)>)
    requires
        i <= s.len(),
    ensures
        match r {
            Some((e, j)) => spec_parse_tile_entry(s@, i as int) == Option::Some((e, j as int))
                && i < j <= s.len(),
            None => spec_parse_tile_entry(s@, i as int) is None,
        },
{
    match value_usize_at(s, i) {
        Some((idx, j1)) => {
            let j2 = skip_ws_at(s, j1);
            if j2 < s.len() && s[j2] == ':' {
                match value_tile_at(s, j2 + 1) {
                    Some((t, j3)) => Some((TileEntry { index: idx, tile: t }, j3)),
                    None => None,
                }
            } else {
                None
            }
        },
        None => None,
    }
}

/// Exec mirror of [`spec_parse_tile_entries`].
pub fn tile_entries_at(s: &Vec<char>, i: usize) -> (r: Option<(Vec<TileEntry>, usize)>)
    requires
        i <= s.len(),
    ensures
        match r {
            Some((es, j)) => spec_parse_tile_entries(s@, i as int) == Option::Some(
                (es@, j as int),
            ) && i < j <= s.len(),
            None => spec_parse_tile_entries(s@, i as int) is None,
        },
    decreases s.len() - i,
{
    let i1 = skip_ws_at(s, i);
    if i1 >= s.len() {
        return None;
    }
    if s[i1] == '}' {
        let es: Vec<TileEntry> = Vec::new();
        assert(es@ =~= Seq::<TileEntry>::empty());
        return Some((es, i1 + 1));
    }
    match tile_entry_at(s, i1) {
        Some((e, i2)) => {
            let i3 = skip_ws_at(s, i2);
            if i3 < s.len() && s[i3] == ',' {
                match tile_entries_at(s, i3 + 1) {
                    Some((mut rest, i4)) => {
                        let ghost rest0 = rest@;
                        rest.insert(0, e);
                        assert(rest@ =~= seq![e] + rest0);
                        Some((rest, i4))
                    },
                    None => None,
                }
            } else if i3 < s.len() && s[i3] == '}' {
                let mut es: Vec<TileEntry> = Vec::new();
                es.push(e);
                assert(es@ =~= seq![e]);
                Some((es, i3 + 1))
            } else {
                None
            }
        },
        None => None,
    }
}

/// Exec mirror of [`spec_parse_prop_entry`].
pub fn prop_entry_at(s: &Vec<char>, i: usize) -> (r: Option<(PropEntry, usize)>)
    requires
        i <= s.len(),
    ensures
        match r {
            Some((e, j)) => spec_parse_prop_entry(s@, i as int) == Option::Some((e@, j as int))
                && i < j <= s.len(),
            None => spec_parse_prop_entry(s@, i as int) is None,
        },
{
    match value_string_at(s, i) {
        Some((k, j1)) => {
            let j2 = skip_ws_at(s, j1);
            if j2 < s.len() && s[j2] == ':' {
                match value_string_at(s, j2 + 1) {
                    Some((v, j3)) => {
                        let key = crate::strutil::chars_to_string(&k);
                        let value = crate::strutil::chars_to_string(&v);
                        Some((PropEntry { key, value }, j3))
                    },
                    None => None,
                }
            } else {
                None
            }
        },
        None => None,
    }
}

/// Exec mirror of [`spec_parse_prop_entries`].
pub fn prop_entries_at(s: &Vec<char>, i: usize) -> (r: Option<(Vec<PropEntry>, usize)>)
    requires
        i <= s.len(),
    ensures
        match r {
            Some((es, j)) => spec_parse_prop_entries(s@, i as int) == Option::Some(
                (es@.map_values(|p: PropEntry| p@), j as int),
            ) && i < j <= s.len(),
            None => spec_parse_prop_entries(s@, i as int) is None,
        },
    decreases s.len() - i,
{
    let i1 = skip_ws_at(s, i);
    if i1 >= s.len() {
        return None;
    }
    if s[i1] == '}' {
        let es: Vec<PropEntry> = Vec::new();
        assert(es@.map_values(|p: PropEntry| p@) =~= Seq::<PropEntryView>::empty());
        return Some((es, i1 + 1));
    }
    match prop_entry_at(s, i1) {
        Some((e, i2)) => {
            let i3 = skip_ws_at(s, i2);
            if i3 < s.len() && s[i3] == ',' {
                match prop_entries_at(s, i3 + 1) {
                    Some((mut rest, i4)) => {
                        let ghost rest0 = rest@;
                        let ghost ev = e@;
                        rest.insert(0, e);
                        assert(rest@.map_values(|p: PropEntry| p@) =~= seq![ev]
                            + rest0.map_values(|p: PropEntry| p@));
                        Some((rest, i4))
                    },
                    None => None,
                }
            } else if i3 < s.len() && s[i3] == '}' {
                let ghost ev = e@;
                let mut es: Vec<PropEntry> = Vec::new();
                es.push(e);
                assert(es@.map_values(|p: PropEntry| p@) =~= seq![ev]);
                Some((es, i3 + 1))
            } else {
                None
            }
        },
        None => None,
    }
}

/// Taking one more character appends its escaped spelling.
pub proof fn lemma_esc_snoc(w: Seq<char>, k: int)
    requires
        0 <= k < w.len(),
    ensures
        esc(w.take(k + 1)) == esc(w.take(k)) + esc_char(w[k]),
    decreases k,
{
    if k == 0 {
        let single = seq![w[0]];
        assert(w.take(1) =~= single);
        assert(single.drop_first() =~= Seq::<char>::empty());
        assert(single[0] == w[0]);
        assert(esc(single) == esc_char(w[0]) + esc(Seq::<char>::empty()));
        assert(esc_char(w[0]) + Seq::<char>::empty() =~= esc_char(w[0]));
        assert(w.take(0) =~= Seq::<char>::empty());
        assert(Seq::<char>::empty() + esc_char(w[0]) =~= esc_char(w[0]));
    } else {
        let tail = w.drop_first();
        lemma_esc_snoc(tail, k - 1);
        assert(w.take(k + 1).drop_first() =~= tail.take(k));
        assert(w.take(k).drop_first() =~= tail.take(k - 1));
        assert(w.take(k + 1)[0] == w[0]);
        assert(w.take(k)[0] == w[0]);
        assert(tail[k - 1] == w[k]);
        let e0 = esc_char(w[0]);
        let a = esc(tail.take(k - 1));
        let b = esc_char(w[k]);
        assert(esc(w.take(k + 1)) == e0 + (a + b));
        assert(esc(w.take(k)) == e0 + a);
        assert(e0 + (a + b) =~= (e0 + a) + b);
    }
}

/// Append the quoted spelling of a string, its quotes and backslashes
/// escaped.
pub fn push_quoted(out: &mut Vec<char>, w: &str)
    ensures
        final(out)@ == old(out)@ + ser_quoted(w@),
{
    out.push('"');
    let wc = str_chars(w);
    proof {
        assert(w@.take(0) =~= Seq::<char>::empty());
        assert(out@ =~= old(out)@ + (seq!['"'] + esc(w@.take(0))));
    }
    let mut k: usize = 0;
    while k < wc.len()
        invariant
            k <= wc.len(),
            wc@ == w@,
            out@ == old(out)@ + (seq!['"'] + esc(w@.take(k as int))),
        decreases wc.len() - k,
    {
        let c = wc[k];
        if c == '"' || c == '\\' {
            out.push('\\');
        }
        out.push(c);
        proof {
            lemma_esc_snoc(w@, k as int);
            assert(out@ =~= old(out)@ + (seq!['"'] + esc(w@.take(k as int + 1))));
        }
        k += 1;
    }
    out.push('"');
    proof {
        assert(w@.take(w@.len() as int) =~= w@);
        assert(out@ =~= old(out)@ + ser_quoted(w@));
    }
}

/// Append the canonical spelling of a boolean.
pub fn push_bool(out: &mut Vec<char>, b: bool)
    ensures
        final(out)@ == old(out)@ + ser_bool(b),
{
    if b {
        push_lit(out, "true");
    } else {
        push_lit(out, "false");
    }
}

/// Append the canonical spelling of a tile.
pub fn push_tile(out: &mut Vec<char>, t: &TileData)
    ensures
        final(out)@ == old(out)@ + ser_tile(*t),
{
    match t {
        TileData::Empty => {
            push_lit(out, "None");
        },
        TileData::Tile(p) => {
            push_lit(out, "Tile");
            out.push('(');
            push_dec_u64(out, *p as u64);
            out.push(')');
            assert(final(out)@ =~= old(out)@ + ser_tile(*t));
        },
        TileData::Door(p, r) => {
            push_lit(out, "Door");
            out.push('(');
            push_dec_u64(out, *p as u64);
            out.push(',');
            push_dec_u64(out, *r as u64);
            out.push(')');
            assert(final(out)@ =~= old(out)@ + ser_tile(*t));
        },
    }
}

/// Append the canonical spelling of one tile assignment.
pub fn push_tile_entry(out: &mut Vec<char>, e: &TileEntry)
    ensures
        final(out)@ == old(out)@ + ser_tile_entry(*e),
{
    push_dec_u64(out, e.index as u64);
    out.push(':');
    push_tile(out, &e.tile);
    assert(final(out)@ =~= old(out)@ + ser_tile_entry(*e));
}

/// Taking one more entry appends its spelling and a comma.
pub proof fn lemma_ser_tile_entries_snoc(es: Seq<TileEntry>, k: int)
    requires
        0 <= k < es.len(),
    ensures
        ser_tile_entries(es.take(k + 1)) == ser_tile_entries(es.take(k)) + (ser_tile_entry(es[k])
            + seq![',']),
    decreases k,
{
    if k == 0 {
        let single = seq![es[0]];
        assert(es.take(1) =~= single);
        assert(single.drop_first() =~= Seq::<TileEntry>::empty());
        assert(single.len() == 1);
        assert(single[0] == es[0]);
        assert(ser_tile_entries(single) == ser_tile_entry(single[0]) + (seq![',']
            + ser_tile_entries(single.drop_first())));
        assert(ser_tile_entries(Seq::<TileEntry>::empty()) == Seq::<char>::empty());
        assert(ser_tile_entry(es[0]) + (seq![','] + Seq::<char>::empty()) =~= ser_tile_entry(
            es[0],
        ) + seq![',']);
        assert(es.take(0) =~= Seq::<TileEntry>::empty());
        assert(Seq::<char>::empty() + (ser_tile_entry(es[0]) + seq![',']) =~= ser_tile_entry(
            es[0],
        ) + seq![',']);
    } else {
        let tail = es.drop_first();
        lemma_ser_tile_entries_snoc(tail, k - 1);
        assert(es.take(k + 1).drop_first() =~= tail.take(k));
        assert(es.take(k).drop_first() =~= tail.take(k - 1));
        assert(es.take(k + 1)[0] == es[0]);
        assert(es.take(k)[0] == es[0]);
        assert(tail[k - 1] == es[k]);
        let e0 = ser_tile_entry(es[0]);
        let a = ser_tile_entries(tail.take(k - 1));
        let b = ser_tile_entry(es[k]) + seq![','];
        assert(ser_tile_entries(es.take(k + 1)) == e0 + (seq![','] + (a + b)));
        assert(ser_tile_entries(es.take(k)) == e0 + (seq![','] + a));
        assert(e0 + (seq![','] + (a + b)) =~= (e0 + (seq![','] + a)) + b);
    }
}

/// Append the canonical spelling of the whole sparse tile map's entries.
pub fn push_tile_entries(out: &mut Vec<char>, es: &Vec<TileEntry>)
    ensures
        final(out)@ == old(out)@ + ser_tile_entries(es@),
{
    let ghost base = out@;
    let mut k: usize = 0;
    while k < es.len()
        invariant
            k <= es.len(),
            out@ == base + ser_tile_entries(es@.take(k as int)),
        decreases es.len() - k,
    {
        push_tile_entry(out, &es[k]);
        out.push(',');
        proof {
            lemma_ser_tile_entries_snoc(es@, k as int);
            assert(out@ =~= base + ser_tile_entries(es@.take(k as int + 1)));
        }
        k += 1;
    }
    proof {
        assert(es@.take(es@.len() as int) =~= es@);
    }
}

/// Taking one more property appends its spelling and a comma.
pub proof fn lemma_ser_prop_entries_snoc(es: Seq<PropEntryView>, k: int)
    requires
        0 <= k < es.len(),
    ensures
        ser_prop_entries(es.take(k + 1)) == ser_prop_entries(es.take(k)) + (ser_prop_entry(es[k])
            + seq![',']),
    decreases k,
{
    if k == 0 {
        let single = seq![es[0]];
        assert(es.take(1) =~= single);
        assert(single.drop_first() =~= Seq::<PropEntryView>::empty());
        assert(single.len() == 1);
        assert(single[0] == es[0]);
        assert(ser_prop_entries(single) == ser_prop_entry(single[0]) + (seq![',']
            + ser_prop_entries(single.drop_first())));
        assert(ser_prop_entries(Seq::<PropEntryView>::empty()) == Seq::<char>::empty());
        assert(ser_prop_entry(es[0]) + (seq![','] + Seq::<char>::empty()) =~= ser_prop_entry(
            es[0],
        ) + seq![',']);
        assert(es.take(0) =~= Seq::<PropEntryView>::empty());
        assert(Seq::<char>::empty() + (ser_prop_entry(es[0]) + seq![',']) =~= ser_prop_entry(
            es[0],
        ) + seq![',']);
    } else {
        let tail = es.drop_first();
        lemma_ser_prop_entries_snoc(tail, k - 1);
        assert(es.take(k + 1).drop_first() =~= tail.take(k));
        assert(es.take(k).drop_first() =~= tail.take(k - 1));
        assert(es.take(k + 1)[0] == es[0]);
        assert(es.take(k)[0] == es[0]);
        assert(tail[k - 1] == es[k]);
        let e0 = ser_prop_entry(es[0]);
        let a = ser_prop_entries(tail.take(k - 1));
        let b = ser_prop_entry(es[k]) + seq![','];
        assert(ser_prop_entries(es.take(k + 1)) == e0 + (seq![','] + (a + b)));
        assert(ser_prop_entries(es.take(k)) == e0 + (seq![','] + a));
        assert(e0 + (seq![','] + (a + b)) =~= (e0 + (seq![','] + a)) + b);
    }
}

/// Append the canonical spelling of the whole property map's entries.
pub fn push_prop_entries(out: &mut Vec<char>, es: &Vec<PropEntry>)
    ensures
        final(out)@ == old(out)@ + ser_prop_entries(es@.map_values(|p: PropEntry| p@)),
{
    let ghost base = out@;
    let ghost vs = es@.map_values(|p: PropEntry| p@);
    let mut k: usize = 0;
    while k < es.len()
        invariant
            k <= es.len(),
            vs == es@.map_values(|p: PropEntry| p@),
            out@ == base + ser_prop_entries(vs.take(k as int)),
        decreases es.len() - k,
    {
        assert(vs[k as int] == es@[k as int]@);
        push_quoted(out, es[k].key.as_str());
        out.push(':');
        push_quoted(out, es[k].value.as_str());
        out.push(',');
        proof {
            lemma_ser_prop_entries_snoc(vs, k as int);
            assert(out@ =~= base + ser_prop_entries(vs.take(k as int + 1)));
        }
        k += 1;
    }
    proof {
        assert(vs.take(vs.len() as int) =~= vs);
    }
}

} // verus!

verus! {

/// One complete record field: the label, the value, the separator.
pub open spec fn spec_field_u32(s: Seq<char>, i: int, name: Seq<char>) -> Option<(u32, int)> {
    match spec_label(s, i, name) {
        Option::Some(j) => match spec_value_u32(s, j) {
            Option::Some((v, k)) => match spec_field_sep(s, k) {
                Option::Some(l) => Option::Some((v, l)),
                Option::None => Option::None,
            },
            Option::None => Option::None,
        },
        Option::None => Option::None,
    }
}

pub open spec fn spec_field_usize(s: Seq<char>, i: int, name: Seq<char>) -> Option<(usize, int)> {
    match spec_label(s, i, name) {
        Option::Some(j) => match spec_value_usize(s, j) {
            Option::Some((v, k)) => match spec_field_sep(s, k) {
                Option::Some(l) => Option::Some((v, l)),
                Option::None => Option::None,
            },
            Option::None => Option::None,
        },
        Option::None => Option::None,
    }
}

pub open spec fn spec_field_i64(s: Seq<char>, i: int, name: Seq<char>) -> Option<(i64, int)> {
    match spec_label(s, i, name) {
        Option::Some(j) => match spec_value_i64(s, j) {
            Option::Some((v, k)) => match spec_field_sep(s, k) {
                Option::Some(l) => Option::Some((v, l)),
                Option::None => Option::None,
            },
            Option::None => Option::None,
        },
        Option::None => Option::None,
    }
}

pub open spec fn spec_field_bool(s: Seq<char>, i: int, name: Seq<char>) -> Option<(bool, int)> {
    match spec_label(s, i, name) {
        Option::Some(j) => match spec_value_bool(s, j) {
            Option::Some((v, k)) => match spec_field_sep(s, k) {
                Option::Some(l) => Option::Some((v, l)),
                Option::None => Option::None,
            },
            Option::None => Option::None,
        },
        Option::None => Option::None,
    }
}

pub open spec fn spec_field_string(s: Seq<char>, i: int, name: Seq<char>) -> Option<
    (Seq<char>, int),
> {
    match spec_label(s, i, name) {
        Option::Some(j) => match spec_value_string(s, j) {
            Option::Some((v, k)) => match spec_field_sep(s, k) {
                Option::Some(l) => Option::Some((v, l)),
                Option::None => Option::None,
            },
            Option::None => Option::None,
        },
        Option::None => Option::None,
    }
}

/// A map-valued field: the label, a braced entry list, the comma.
pub open spec fn spec_field_tiles(s: Seq<char>, i: int, name: Seq<char>) -> Option<
    (Seq<TileEntry>, int),
> {
    match spec_label(s, i, name) {
        Option::Some(j) => {
            let j1 = skip_ws(s, j);
            if 0 <= j1 < s.len() && s[j1] == '{' {
                match spec_parse_tile_entries(s, j1 + 1) {
                    Option::Some((es, k)) => match spec_field_sep(s, k) {
                        Option::Some(l) => Option::Some((es, l)),
                        Option::None => Option::None,
                    },
                    Option::None => Option::None,
                }
            } else {
                Option::None
            }
        },
        Option::None => Option::None,
    }
}

pub open spec fn spec_field_props(s: Seq<char>, i: int, name: Seq<char>) -> Option<
    (Seq<PropEntryView>, int),
> {
    match spec_label(s, i, name) {
        Option::Some(j) => {
            let j1 = skip_ws(s, j);
            if 0 <= j1 < s.len() && s[j1] == '{' {
                match spec_parse_prop_entries(s, j1 + 1) {
                    Option::Some((es, k)) => match spec_field_sep(s, k) {
                        Option::Some(l) => Option::Some((es, l)),
                        Option::None => Option::None,
                    },
                    Option::None => Option::None,
                }
            } else {
                Option::None
            }
        },
        Option::None => Option::None,
    }
}

/// The braced spelling of a tile map.
pub open spec fn ser_tile_map(es: Seq<TileEntry>) -> Seq<char> {
    seq!['{'] + (ser_tile_entries(es) + seq!['}'])
}

/// The braced spelling of a property map.
pub open spec fn ser_prop_map(es: Seq<PropEntryView>) -> Seq<char> {
    seq!['{'] + (ser_prop_entries(es) + seq!['}'])
}

/// On the canonical spelling the separator is the comma itself.
pub proof fn lemma_field_sep_comma(s: Seq<char>, i: int)
    requires
        0 <= i < s.len(),
        s[i] == ',',
    ensures
        spec_field_sep(s, i) == Option::Some(i + 1),
{
    lemma_skip_ws_at(s, i);
}

pub proof fn lemma_field_u32_exact(s: Seq<char>, i: int, name: Seq<char>, v: u32)
    requires
        matches_at(s, i, fld(name, dec_rep(v as nat))),
        name.len() >= 1,
        !is_ws(name[0]),
    ensures
        spec_field_u32(s, i, name) == Option::Some(
            (v, i + fld(name, dec_rep(v as nat)).len()),
        ),
{
    let da = dec_rep(v as nat);
    assert(fld(name, da) =~= (name + seq![':']) + (da + seq![',']));
    lemma_matches_split(s, i, name + seq![':'], da + seq![',']);
    lemma_label_exact(s, i, name);
    let p: int = i + (name.len() as int + 1);
    lemma_matches_split(s, p, da, seq![',']);
    let c: int = p + da.len();
    assert(s[c] == s.subrange(c, c + 1)[0]);
    assert(s[c] == ',');
    lemma_value_u32_exact(s, p, v);
    lemma_field_sep_comma(s, c);
}

pub proof fn lemma_field_usize_exact(s: Seq<char>, i: int, name: Seq<char>, v: usize)
    requires
        matches_at(s, i, fld(name, dec_rep(v as nat))),
        name.len() >= 1,
        !is_ws(name[0]),
    ensures
        spec_field_usize(s, i, name) == Option::Some(
            (v, i + fld(name, dec_rep(v as nat)).len()),
        ),
{
    let da = dec_rep(v as nat);
    assert(fld(name, da) =~= (name + seq![':']) + (da + seq![',']));
    lemma_matches_split(s, i, name + seq![':'], da + seq![',']);
    lemma_label_exact(s, i, name);
    let p: int = i + (name.len() as int + 1);
    lemma_matches_split(s, p, da, seq![',']);
    let c: int = p + da.len();
    assert(s[c] == s.subrange(c, c + 1)[0]);
    assert(s[c] == ',');
    lemma_value_usize_exact(s, p, v);
    lemma_field_sep_comma(s, c);
}

pub proof fn lemma_field_i64_exact(s: Seq<char>, i: int, name: Seq<char>, v: i64)
    requires
        matches_at(s, i, fld(name, dec_rep_i64(v as int))),
        name.len() >= 1,
        !is_ws(name[0]),
    ensures
        spec_field_i64(s, i, name) == Option::Some(
            (v, i + fld(name, dec_rep_i64(v as int)).len()),
        ),
{
    let da = dec_rep_i64(v as int);
    assert(fld(name, da) =~= (name + seq![':']) + (da + seq![',']));
    lemma_matches_split(s, i, name + seq![':'], da + seq![',']);
    lemma_label_exact(s, i, name);
    let p: int = i + (name.len() as int + 1);
    lemma_matches_split(s, p, da, seq![',']);
    let c: int = p + da.len();
    assert(s[c] == s.subrange(c, c + 1)[0]);
    assert(s[c] == ',');
    lemma_value_i64_exact(s, p, v);
    lemma_field_sep_comma(s, c);
}

pub proof fn lemma_field_bool_exact(s: Seq<char>, i: int, name: Seq<char>, v: bool)
    requires
        matches_at(s, i, fld(name, ser_bool(v))),
        name.len() >= 1,
        !is_ws(name[0]),
    ensures
        spec_field_bool(s, i, name) == Option::Some((v, i + fld(name, ser_bool(v)).len())),
{
    let da = ser_bool(v);
    assert(fld(name, da) =~= (name + seq![':']) + (da + seq![',']));
    lemma_matches_split(s, i, name + seq![':'], da + seq![',']);
    lemma_label_exact(s, i, name);
    let p: int = i + (name.len() as int + 1);
    lemma_matches_split(s, p, da, seq![',']);
    let c: int = p + da.len();
    assert(s[c] == s.subrange(c, c + 1)[0]);
    assert(s[c] == ',');
    lemma_value_bool_exact(s, p, v);
    lemma_field_sep_comma(s, c);
}

pub proof fn lemma_field_string_exact(s: Seq<char>, i: int, name: Seq<char>, v: Seq<char>)
    requires
        matches_at(s, i, fld(name, ser_quoted(v))),
        name.len() >= 1,
        !is_ws(name[0]),
    ensures
        spec_field_string(s, i, name) == Option::Some((v, i + fld(name, ser_quoted(v)).len())),
{
    let da = ser_quoted(v);
    assert(fld(name, da) =~= (name + seq![':']) + (da + seq![',']));
    lemma_matches_split(s, i, name + seq![':'], da + seq![',']);
    lemma_label_exact(s, i, name);
    let p: int = i + (name.len() as int + 1);
    lemma_matches_split(s, p, da, seq![',']);
    let c: int = p + da.len();
    assert(s[c] == s.subrange(c, c + 1)[0]);
    assert(s[c] == ',');
    lemma_value_string_exact(s, p, v);
    lemma_field_sep_comma(s, c);
}

pub proof fn lemma_field_tiles_exact(s: Seq<char>, i: int, name: Seq<char>, es: Seq<TileEntry>)
    requires
        matches_at(s, i, fld(name, ser_tile_map(es))),
        name.len() >= 1,
        !is_ws(name[0]),
    ensures
        spec_field_tiles(s, i, name) == Option::Some(
            (es, i + fld(name, ser_tile_map(es)).len()),
        ),
{
    let da = ser_tile_map(es);
    assert(fld(name, da) =~= (name + seq![':']) + (da + seq![',']));
    lemma_matches_split(s, i, name + seq![':'], da + seq![',']);
    lemma_label_exact(s, i, name);
    let p: int = i + (name.len() as int + 1);
    lemma_matches_split(s, p, da, seq![',']);
    let c: int = p + da.len();
    assert(s[c] == s.subrange(c, c + 1)[0]);
    assert(s[c] == ',');
    assert(matches_at(s, p, da));
    assert(da =~= seq!['{'] + (ser_tile_entries(es) + seq!['}']));
    lemma_matches_split(s, p, seq!['{'], ser_tile_entries(es) + seq!['}']);
    assert(s[p] == s.subrange(p, p + 1)[0]);
    assert(s[p] == '{');
    lemma_skip_ws_at(s, p);
    lemma_tile_entries_exact(s, p + 1, es);
    lemma_field_sep_comma(s, c);
}

pub proof fn lemma_field_props_exact(
    s: Seq<char>,
    i: int,
    name: Seq<char>,
    es: Seq<PropEntryView>,
)
    requires
        matches_at(s, i, fld(name, ser_prop_map(es))),
        name.len() >= 1,
        !is_ws(name[0]),
    ensures
        spec_field_props(s, i, name) == Option::Some(
            (es, i + fld(name, ser_prop_map(es)).len()),
        ),
{
    let da = ser_prop_map(es);
    assert(fld(name, da) =~= (name + seq![':']) + (da + seq![',']));
    lemma_matches_split(s, i, name + seq![':'], da + seq![',']);
    lemma_label_exact(s, i, name);
    let p: int = i + (name.len() as int + 1);
    lemma_matches_split(s, p, da, seq![',']);
    let c: int = p + da.len();
    assert(s[c] == s.subrange(c, c + 1)[0]);
    assert(s[c] == ',');
    assert(matches_at(s, p, da));
    assert(da =~= seq!['{'] + (ser_prop_entries(es) + seq!['}']));
    lemma_matches_split(s, p, seq!['{'], ser_prop_entries(es) + seq!['}']);
    assert(s[p] == s.subrange(p, p + 1)[0]);
    assert(s[p] == '{');
    lemma_skip_ws_at(s, p);
    lemma_prop_entries_exact(s, p + 1, es);
    lemma_field_sep_comma(s, c);
}

/// Exec mirror of [`spec_field_u32`].
pub fn field_u32_at(s: &Vec<char>, i: usize, name: &str) -> (r: Option<(u32, usize)>)
    requires
        i <= s.len(),
    ensures
        match r {
            Some((v, j)) => spec_field_u32(s@, i as int, name@) == Option::Some((v, j as int))
                && i <= j <= s.len(),
            None => spec_field_u32(s@, i as int, name@) is None,
        },
{
    match label_at(s, i, name) {
        Some(j) => match value_u32_at(s, j) {
            Some((v, k)) => match field_sep_at(s, k) {
                Some(l) => Some((v, l)),
                None => None,
            },
            None => None,
        },
        None => None,
    }
}

/// Exec mirror of [`spec_field_usize`].
pub fn field_usize_at(s: &Vec<char>, i: usize, name: &str) -> (r: Option<(usize, usize)>)
    requires
        i <= s.len(),
    ensures
        match r {
            Some((v, j)) => spec_field_usize(s@, i as int, name@) == Option::Some(
                (v, j as int),
            ) && i <= j <= s.len(),
            None => spec_field_usize(s@, i as int, name@) is None,
        },
{
    match label_at(s, i, name) {
        Some(j) => match value_usize_at(s, j) {
            Some((v, k)) => match field_sep_at(s, k) {
                Some(l) => Some((v, l)),
                None => None,
            },
            None => None,
        },
        None => None,
    }
}

/// Exec mirror of [`spec_field_i64`].
pub fn field_i64_at(s: &Vec<char>, i: usize, name: &str) -> (r: Option<(i64, usize)>)
    requires
        i <= s.len(),
    ensures
        match r {
            Some((v, j)) => spec_field_i64(s@, i as int, name@) == Option::Some((v, j as int))
                && i <= j <= s.len(),
            None => spec_field_i64(s@, i as int, name@) is None,
        },
{
    match label_at(s, i, name) {
        Some(j) => match value_i64_at(s, j) {
            Some((v, k)) => match field_sep_at(s, k) {
                Some(l) => Some((v, l)),
                None => None,
            },
            None => None,
        },
        None => None,
    }
}

/// Exec mirror of [`spec_field_bool`].
pub fn field_bool_at(s: &Vec<char>, i: usize, name: &str) -> (r: Option<(bool, usize)>)
    requires
        i <= s.len(),
    ensures
        match r {
            Some((v, j)) => spec_field_bool(s@, i as int, name@) == Option::Some((v, j as int))
                && i <= j <= s.len(),
            None => spec_field_bool(s@, i as int, name@) is None,
        },
{
    match label_at(s, i, name) {
        Some(j) => match value_bool_at(s, j) {
            Some((v, k)) => match field_sep_at(s, k) {
                Some(l) => Some((v, l)),
                None => None,
            },
            None => None,
        },
        None => None,
    }
}

/// Exec mirror of [`spec_field_string`].
pub fn field_string_at(s: &Vec<char>, i: usize, name: &str) -> (r: Option<(Vec<char>, usize)>)
    requires
        i <= s.len(),
    ensures
        match r {
            Some((v, j)) => spec_field_string(s@, i as int, name@) == Option::Some(
                (v@, j as int),
            ) && i <= j <= s.len(),
            None => spec_field_string(s@, i as int, name@) is None,
        },
{
    match label_at(s, i, name) {
        Some(j) => match value_string_at(s, j) {
            Some((v, k)) => match field_sep_at(s, k) {
                Some(l) => Some((v, l)),
                None => None,
            },
            None => None,
        },
        None => None,
    }
}

/// Exec mirror of [`spec_field_tiles`].
pub fn field_tiles_at(s: &Vec<char>, i: usize, name: &str) -> (r: Option<(Vec<TileEntry>, usize)>)
    requires
        i <= s.len(),
    ensures
        match r {
            Some((es, j)) => spec_field_tiles(s@, i as int, name@) == Option::Some(
                (es@, j as int),
            ) && i <= j <= s.len(),
            None => spec_field_tiles(s@, i as int, name@) is None,
        },
{
    match label_at(s, i, name) {
        Some(j) => {
            let j1 = skip_ws_at(s, j);
            if j1 < s.len() && s[j1] == '{' {
                match tile_entries_at(s, j1 + 1) {
                    Some((es, k)) => match field_sep_at(s, k) {
                        Some(l) => Some((es, l)),
                        None => None,
                    },
                    None => None,
                }
            } else {
                None
            }
        },
        None => None,
    }
}

/// Exec mirror of [`spec_field_props`].
pub fn field_props_at(s: &Vec<char>, i: usize, name: &str) -> (r: Option<(Vec<PropEntry>, usize)>)
    requires
        i <= s.len(),
    ensures
        match r {
            Some((es, j)) => spec_field_props(s@, i as int, name@) == Option::Some(
                (es@.map_values(|p: PropEntry| p@), j as int),
            ) && i <= j <= s.len(),
            None => spec_field_props(s@, i as int, name@) is None,
        },
{
    match label_at(s, i, name) {
        Some(j) => {
            let j1 = skip_ws_at(s, j);
            if j1 < s.len() && s[j1] == '{' {
                match prop_entries_at(s, j1 + 1) {
                    Some((es, k)) => match field_sep_at(s, k) {
                        Some(l) => Some((es, l)),
                        None => None,
                    },
                    None => None,
                }
            } else {
                None
            }
        },
        None => None,
    }
}

} // verus!

verus! {

/// Append one numeric field: label, colon, digits, comma.
pub fn push_field_u32(out: &mut Vec<char>, name: &str, v: u32)
    ensures
        final(out)@ == old(out)@ + fld(name@, dec_rep(v as nat)),
{
    push_lit(out, name);
    out.push(':');
    push_dec_u64(out, v as u64);
    out.push(',');
    assert(final(out)@ =~= old(out)@ + fld(name@, dec_rep(v as nat)));
}

/// Append one signed numeric field: label, colon, digits, comma.
pub fn push_field_i64(out: &mut Vec<char>, name: &str, v: i64)
    ensures
        final(out)@ == old(out)@ + fld(name@, dec_rep_i64(v as int)),
{
    push_lit(out, name);
    out.push(':');
    push_dec_i64(out, v);
    out.push(',');
    assert(final(out)@ =~= old(out)@ + fld(name@, dec_rep_i64(v as int)));
}

/// Append one boolean field: label, colon, literal, comma.
pub fn push_field_bool(out: &mut Vec<char>, name: &str, v: bool)
    ensures
        final(out)@ == old(out)@ + fld(name@, ser_bool(v)),
{
    push_lit(out, name);
    out.push(':');
    push_bool(out, v);
    out.push(',');
    assert(final(out)@ =~= old(out)@ + fld(name@, ser_bool(v)));
}

/// Append one string field: label, colon, quoted text, comma.
pub fn push_field_string(out: &mut Vec<char>, name: &str, v: &str)
    ensures
        final(out)@ == old(out)@ + fld(name@, ser_quoted(v@)),
{
    push_lit(out, name);
    out.push(':');
    push_quoted(out, v);
    out.push(',');
    assert(final(out)@ =~= old(out)@ + fld(name@, ser_quoted(v@)));
}

/// Append the tile map field: label, colon, braced entries, comma.
pub fn push_field_tiles(out: &mut Vec<char>, name: &str, es: &Vec<TileEntry>)
    ensures
        final(out)@ == old(out)@ + fld(name@, ser_tile_map(es@)),
{
    push_lit(out, name);
    out.push(':');
    out.push('{');
    push_tile_entries(out, es);
    out.push('}');
    out.push(',');
    assert(final(out)@ =~= old(out)@ + fld(name@, ser_tile_map(es@)));
}

/// Append the property map field: label, colon, braced entries, comma.
pub fn push_field_props(out: &mut Vec<char>, name: &str, es: &Vec<PropEntry>)
    ensures
        final(out)@ == old(out)@ + fld(
            name@,
            ser_prop_map(es@.map_values(|p: PropEntry| p@)),
        ),
{
    push_lit(out, name);
    out.push(':');
    out.push('{');
    push_prop_entries(out, es);
    out.push('}');
    out.push(',');
    assert(final(out)@ =~= old(out)@ + fld(
        name@,
        ser_prop_map(es@.map_values(|p: PropEntry| p@)),
    ));
}

/// Canonical text of an island record.
pub open spec fn ser_island(v: IslandView) -> Seq<char> {
    seq!['('] + (fld("dock_room_id"@, dec_rep(v.dock_room_id as nat)) + (fld(
        "name"@,
        ser_quoted(v.name),
    ) + (fld("description"@, ser_quoted(v.description)) + seq![')'])))
}

/// The island grammar: one record with the three fields in order,
/// nothing but whitespace around the record.
pub open spec fn spec_parse_island(s: Seq<char>) -> Option<IslandView> {
    let i0 = skip_ws(s, 0);
    if !(0 <= i0 < s.len() && s[i0] == '(') {
        Option::None
    } else {
        match spec_field_u32(s, i0 + 1, "dock_room_id"@) {
            Option::Some((dock, i1)) => match spec_field_string(s, i1, "name"@) {
                Option::Some((nm, i2)) => match spec_field_string(s, i2, "description"@) {
                    Option::Some((ds, i3)) => {
                        let r = skip_ws(s, i3);
                        if 0 <= r < s.len() && s[r] == ')' && skip_ws(s, r + 1) == s.len() {
                            Option::Some(
                                IslandView { dock_room_id: dock, name: nm, description: ds },
                            )
                        } else {
                            Option::None
                        }
                    },
                    Option::None => Option::None,
                },
                Option::None => Option::None,
            },
            Option::None => Option::None,
        }
    }
}

/// Round trip: parsing the canonical text of an island record yields the
/// record back, whatever its contents.
#[verifier::rlimit(60)]
pub proof fn lemma_island_round_trip(v: IslandView)
    ensures
        spec_parse_island(ser_island(v)) == Option::Some(v),
{
    reveal_strlit("dock_room_id");
    reveal_strlit("name");
    reveal_strlit("description");
    let s = ser_island(v);
    let f1 = fld("dock_room_id"@, dec_rep(v.dock_room_id as nat));
    let f2 = fld("name"@, ser_quoted(v.name));
    let f3 = fld("description"@, ser_quoted(v.description));
    lemma_matches_whole(s);
    lemma_matches_split(s, 0, seq!['('], f1 + (f2 + (f3 + seq![')'])));
    assert(s[0] == s.subrange(0, 1)[0]);
    assert(s[0] == '(');
    lemma_skip_ws_at(s, 0);
    let q1: int = 1 + f1.len() as int;
    lemma_matches_split(s, 1, f1, f2 + (f3 + seq![')']));
    lemma_field_u32_exact(s, 1, "dock_room_id"@, v.dock_room_id);
    let q2: int = q1 + f2.len() as int;
    lemma_matches_split(s, q1, f2, f3 + seq![')']);
    lemma_field_string_exact(s, q1, "name"@, v.name);
    let q3: int = q2 + f3.len() as int;
    lemma_matches_split(s, q2, f3, seq![')']);
    lemma_field_string_exact(s, q2, "description"@, v.description);
    assert(s[q3] == s.subrange(q3, q3 + 1)[0]);
    assert(s[q3] == ')');
    lemma_skip_ws_at(s, q3);
    assert(q3 + 1 == s.len());
    lemma_skip_ws_at(s, q3 + 1);
}

impl Island {
    /// Canonical text of this island record.
    pub fn to_text(&self) -> (r: String)
        ensures
            r@ == ser_island(self@),
    {
        let mut out: Vec<char> = Vec::new();
        out.push('(');
        push_field_u32(&mut out, "dock_room_id", self.dock_room_id);
        push_field_string(&mut out, "name", self.name.as_str());
        push_field_string(&mut out, "description", self.description.as_str());
        out.push(')');
        proof {
            assert(out@ =~= ser_island(self@));
        }
        crate::strutil::chars_to_string(&out)
    }

    /// Parse an island record from text; yields nothing when the text
    /// does not follow the island grammar.
    pub fn from_text(s: &str) -> (r: Option<Island>)
        ensures
            match r {
                Some(island) => spec_parse_island(s@) == Option::Some(island@),
                None => spec_parse_island(s@) is None,
            },
    {
        let cs = str_chars(s);
        let i0 = skip_ws_at(&cs, 0);
        if !(i0 < cs.len() && cs[i0] == '(') {
            return None;
        }
        let (dock, i1) = match field_u32_at(&cs, i0 + 1, "dock_room_id") {
            Some(x) => x,
            None => {
                return None;
            },
        };
        let (nm, i2) = match field_string_at(&cs, i1, "name") {
            Some(x) => x,
            None => {
                return None;
            },
        };
        let (ds, i3) = match field_string_at(&cs, i2, "description") {
            Some(x) => x,
            None => {
                return None;
            },
        };
        let r = skip_ws_at(&cs, i3);
        if !(r < cs.len() && cs[r] == ')') {
            return None;
        }
        let e = skip_ws_at(&cs, r + 1);
        if e != cs.len() {
            return None;
        }
        let name = crate::strutil::chars_to_string(&nm);
        let description = crate::strutil::chars_to_string(&ds);
        Some(Island { dock_room_id: dock, name, description })
    }
}

} // verus!

verus! {

/// Canonical text of a room record.
pub open spec fn ser_room(v: RoomView) -> Seq<char> {
    seq!['('] + (fld("room_id"@, dec_rep(v.room_id as nat)) + (fld(
        "pos_x"@,
        dec_rep_i64(v.pos_x as int),
    ) + (fld("pos_y"@, dec_rep_i64(v.pos_y as int)) + (fld("pos_z"@, dec_rep_i64(v.pos_z as int))
        + (fld("extent_x"@, dec_rep(v.extent_x as nat)) + (fld(
        "extent_y"@,
        dec_rep(v.extent_y as nat),
    ) + (fld("extent_z"@, dec_rep(v.extent_z as nat)) + (fld("looping_x"@, ser_bool(v.looping_x))
        + (fld("looping_y"@, ser_bool(v.looping_y)) + (fld("looping_z"@, ser_bool(v.looping_z)) + (
    fld("tiles"@, ser_tile_map(v.tiles)) + seq![')'])))))))))))
}

/// The room grammar: one record with the eleven fields in order,
/// nothing but whitespace around the record.
pub open spec fn spec_parse_room(s: Seq<char>) -> Option<RoomView> {
    let i0 = skip_ws(s, 0);
    if !(0 <= i0 < s.len() && s[i0] == '(') {
        Option::None
    } else {
        match spec_field_u32(s, i0 + 1, "room_id"@) {
            Option::Some((room_id, i1)) => match spec_field_i64(s, i1, "pos_x"@) {
                Option::Some((px, i2)) => match spec_field_i64(s, i2, "pos_y"@) {
                    Option::Some((py, i3)) => match spec_field_i64(s, i3, "pos_z"@) {
                        Option::Some((pz, i4)) => match spec_field_u32(s, i4, "extent_x"@) {
                            Option::Some((ex, i5)) => match spec_field_u32(s, i5, "extent_y"@) {
                                Option::Some((ey, i6)) => match spec_field_u32(
                                    s,
                                    i6,
                                    "extent_z"@,
                                ) {
                                    Option::Some((ez, i7)) => match spec_field_bool(
                                        s,
                                        i7,
                                        "looping_x"@,
                                    ) {
                                        Option::Some((lx, i8)) => match spec_field_bool(
                                            s,
                                            i8,
                                            "looping_y"@,
                                        ) {
                                            Option::Some((ly, i9)) => match spec_field_bool(
                                                s,
                                                i9,
                                                "looping_z"@,
                                            ) {
                                                Option::Some((lz, i10)) => match spec_field_tiles(
                                                    s,
                                                    i10,
                                                    "tiles"@,
                                                ) {
                                                    Option::Some((ts, i11)) => {
                                                        let r = skip_ws(s, i11);
                                                        if 0 <= r < s.len() && s[r] == ')'
                                                            && skip_ws(s, r + 1) == s.len() {
                                                            Option::Some(
                                                                RoomView {
                                                                    room_id,
                                                                    pos_x: px,
                                                                    pos_y: py,
                                                                    pos_z: pz,
                                                                    extent_x: ex,
                                                                    extent_y: ey,
                                                                    extent_z: ez,
                                                                    looping_x: lx,
                                                                    looping_y: ly,
                                                                    looping_z: lz,
                                                                    tiles: ts,
                                                                },
                                                            )
                                                        } else {
                                                            Option::None
                                                        }
                                                    },
                                                    Option::None => Option::None,
                                                },
                                                Option::None => Option::None,
                                            },
                                            Option::None => Option::None,
                                        },
                                        Option::None => Option::None,
                                    },
                                    Option::None => Option::None,
                                },
                                Option::None => Option::None,
                            },
                            Option::None => Option::None,
                        },
                        Option::None => Option::None,
                    },
                    Option::None => Option::None,
                },
                Option::None => Option::None,
            },
            Option::None => Option::None,
        }
    }
}

/// Round trip: parsing the canonical text of a room record yields the
/// record back, whatever its contents.
#[verifier::rlimit(100)]
pub proof fn lemma_room_round_trip(v: RoomView)
    ensures
        spec_parse_room(ser_room(v)) == Option::Some(v),
{
    reveal_strlit("room_id");
    reveal_strlit("pos_x");
    reveal_strlit("pos_y");
    reveal_strlit("pos_z");
    reveal_strlit("extent_x");
    reveal_strlit("extent_y");
    reveal_strlit("extent_z");
    reveal_strlit("looping_x");
    reveal_strlit("looping_y");
    reveal_strlit("looping_z");
    reveal_strlit("tiles");
    let s = ser_room(v);
    let f1 = fld("room_id"@, dec_rep(v.room_id as nat));
    let f2 = fld("pos_x"@, dec_rep_i64(v.pos_x as int));
    let f3 = fld("pos_y"@, dec_rep_i64(v.pos_y as int));
    let f4 = fld("pos_z"@, dec_rep_i64(v.pos_z as int));
    let f5 = fld("extent_x"@, dec_rep(v.extent_x as nat));
    let f6 = fld("extent_y"@, dec_rep(v.extent_y as nat));
    let f7 = fld("extent_z"@, dec_rep(v.extent_z as nat));
    let f8 = fld("looping_x"@, ser_bool(v.looping_x));
    let f9 = fld("looping_y"@, ser_bool(v.looping_y));
    let f10 = fld("looping_z"@, ser_bool(v.looping_z));
    let f11 = fld("tiles"@, ser_tile_map(v.tiles));
    lemma_matches_whole(s);
    lemma_matches_split(
        s,
        0,
        seq!['('],
        f1 + (f2 + (f3 + (f4 + (f5 + (f6 + (f7 + (f8 + (f9 + (f10 + (f11 + seq![')'])))))))))),
    );
    assert(s[0] == s.subrange(0, 1)[0]);
    assert(s[0] == '(');
    lemma_skip_ws_at(s, 0);
    let q1: int = 1 + f1.len() as int;
    lemma_matches_split(
        s,
        1,
        f1,
        f2 + (f3 + (f4 + (f5 + (f6 + (f7 + (f8 + (f9 + (f10 + (f11 + seq![')']))))))))),
    );
    lemma_field_u32_exact(s, 1, "room_id"@, v.room_id);
    let q2: int = q1 + f2.len() as int;
    lemma_matches_split(s, q1, f2, f3 + (f4 + (f5 + (f6 + (f7 + (f8 + (f9 + (f10 + (f11
        + seq![')'])))))))));
    lemma_field_i64_exact(s, q1, "pos_x"@, v.pos_x);
    let q3: int = q2 + f3.len() as int;
    lemma_matches_split(s, q2, f3, f4 + (f5 + (f6 + (f7 + (f8 + (f9 + (f10 + (f11
        + seq![')'])))))))
    );
    lemma_field_i64_exact(s, q2, "pos_y"@, v.pos_y);
    let q4: int = q3 + f4.len() as int;
    lemma_matches_split(s, q3, f4, f5 + (f6 + (f7 + (f8 + (f9 + (f10 + (f11 + seq![')']))))))
    );
    lemma_field_i64_exact(s, q3, "pos_z"@, v.pos_z);
    let q5: int = q4 + f5.len() as int;
    lemma_matches_split(s, q4, f5, f6 + (f7 + (f8 + (f9 + (f10 + (f11 + seq![')'])))))
    );
    lemma_field_u32_exact(s, q4, "extent_x"@, v.extent_x);
    let q6: int = q5 + f6.len() as int;
    lemma_matches_split(s, q5, f6, f7 + (f8 + (f9 + (f10 + (f11 + seq![')'])))));
    lemma_field_u32_exact(s, q5, "extent_y"@, v.extent_y);
    let q7: int = q6 + f7.len() as int;
    lemma_matches_split(s, q6, f7, f8 + (f9 + (f10 + (f11 + seq![')']))));
    lemma_field_u32_exact(s, q6, "extent_z"@, v.extent_z);
    let q8: int = q7 + f8.len() as int;
    lemma_matches_split(s, q7, f8, f9 + (f10 + (f11 + seq![')'])));
    lemma_field_bool_exact(s, q7, "looping_x"@, v.looping_x);
    let q9: int = q8 + f9.len() as int;
    lemma_matches_split(s, q8, f9, f10 + (f11 + seq![')']));
    lemma_field_bool_exact(s, q8, "looping_y"@, v.looping_y);
    let q10: int = q9 + f10.len() as int;
    lemma_matches_split(s, q9, f10, f11 + seq![')']);
    lemma_field_bool_exact(s, q9, "looping_z"@, v.looping_z);
    let q11: int = q10 + f11.len() as int;
    lemma_matches_split(s, q10, f11, seq![')']);
    lemma_field_tiles_exact(s, q10, "tiles"@, v.tiles);
    assert(s[q11] == s.subrange(q11, q11 + 1)[0]);
    assert(s[q11] == ')');
    lemma_skip_ws_at(s, q11);
    assert(q11 + 1 == s.len());
    lemma_skip_ws_at(s, q11 + 1);
}

impl Room {
    /// Canonical text of this room record.
    #[verifier::rlimit(100)]
    pub fn to_text(&self) -> (r: String)
        ensures
            r@ == ser_room(self@),
    {
        let mut out: Vec<char> = Vec::new();
        out.push('(');
        push_field_u32(&mut out, "room_id", self.room_id);
        push_field_i64(&mut out, "pos_x", self.pos_x);
        push_field_i64(&mut out, "pos_y", self.pos_y);
        push_field_i64(&mut out, "pos_z", self.pos_z);
        push_field_u32(&mut out, "extent_x", self.extent_x);
        push_field_u32(&mut out, "extent_y", self.extent_y);
        push_field_u32(&mut out, "extent_z", self.extent_z);
        push_field_bool(&mut out, "looping_x", self.looping_x);
        push_field_bool(&mut out, "looping_y", self.looping_y);
        push_field_bool(&mut out, "looping_z", self.looping_z);
        push_field_tiles(&mut out, "tiles", &self.tiles);
        out.push(')');
        proof {
            assert(out@ =~= ser_room(self@));
        }
        crate::strutil::chars_to_string(&out)
    }

    /// Parse a room record from text; yields nothing when the text does
    /// not follow the room grammar.
    pub fn from_text(s: &str) -> (r: Option<Room>)
        ensures
            match r {
                Some(room) => spec_parse_room(s@) == Option::Some(room@),
                None => spec_parse_room(s@) is None,
            },
    {
        let cs = str_chars(s);
        let i0 = skip_ws_at(&cs, 0);
        if !(i0 < cs.len() && cs[i0] == '(') {
            return None;
        }
        let (room_id, i1) = match field_u32_at(&cs, i0 + 1, "room_id") {
            Some(x) => x,
            None => {
                return None;
            },
        };
        let (pos_x, i2) = match field_i64_at(&cs, i1, "pos_x") {
            Some(x) => x,
            None => {
                return None;
            },
        };
        let (pos_y, i3) = match field_i64_at(&cs, i2, "pos_y") {
            Some(x) => x,
            None => {
                return None;
            },
        };
        let (pos_z, i4) = match field_i64_at(&cs, i3, "pos_z") {
            Some(x) => x,
            None => {
                return None;
            },
        };
        let (extent_x, i5) = match field_u32_at(&cs, i4, "extent_x") {
            Some(x) => x,
            None => {
                return None;
            },
        };
        let (extent_y, i6) = match field_u32_at(&cs, i5, "extent_y") {
            Some(x) => x,
            None => {
                return None;
            },
        };
        let (extent_z, i7) = match field_u32_at(&cs, i6, "extent_z") {
            Some(x) => x,
            None => {
                return None;
            },
        };
        let (looping_x, i8) = match field_bool_at(&cs, i7, "looping_x") {
            Some(x) => x,
            None => {
                return None;
            },
        };
        let (looping_y, i9) = match field_bool_at(&cs, i8, "looping_y") {
            Some(x) => x,
            None => {
                return None;
            },
        };
        let (looping_z, i10) = match field_bool_at(&cs, i9, "looping_z") {
            Some(x) => x,
            None => {
                return None;
            },
        };
        let (tiles, i11) = match field_tiles_at(&cs, i10, "tiles") {
            Some(x) => x,
            None => {
                return None;
            },
        };
        let r = skip_ws_at(&cs, i11);
        if !(r < cs.len() && cs[r] == ')') {
            return None;
        }
        let e = skip_ws_at(&cs, r + 1);
        if e != cs.len() {
            return None;
        }
        Some(
            Room {
                room_id,
                pos_x,
                pos_y,
                pos_z,
                extent_x,
                extent_y,
                extent_z,
                looping_x,
                looping_y,
                looping_z,
                tiles,
            },
        )
    }
}

} // verus!

verus! {

/// Canonical text of an entity spawn record.
pub open spec fn ser_spawn(v: EntitySpawnView) -> Seq<char> {
    seq!['('] + (fld("entity_type"@, ser_quoted(v.entity_type)) + (fld(
        "room_id"@,
        dec_rep(v.room_id as nat),
    ) + (fld("grid_index"@, dec_rep(v.grid_index as nat)) + (fld(
        "properties"@,
        ser_prop_map(v.properties),
    ) + seq![')']))))
}

/// The spawn grammar: one record with the four fields in order,
/// nothing but whitespace around the record.
pub open spec fn spec_parse_spawn(s: Seq<char>) -> Option<EntitySpawnView> {
    let i0 = skip_ws(s, 0);
    if !(0 <= i0 < s.len() && s[i0] == '(') {
        Option::None
    } else {
        match spec_field_string(s, i0 + 1, "entity_type"@) {
            Option::Some((et, i1)) => match spec_field_u32(s, i1, "room_id"@) {
                Option::Some((room_id, i2)) => match spec_field_usize(s, i2, "grid_index"@) {
                    Option::Some((gi, i3)) => match spec_field_props(s, i3, "properties"@) {
                        Option::Some((ps, i4)) => {
                            let r = skip_ws(s, i4);
                            if 0 <= r < s.len() && s[r] == ')' && skip_ws(s, r + 1) == s.len() {
                                Option::Some(
                                    EntitySpawnView {
                                        entity_type: et,
                                        room_id,
                                        grid_index: gi,
                                        properties: ps,
                                    },
                                )
                            } else {
                                Option::None
                            }
                        },
                        Option::None => Option::None,
                    },
                    Option::None => Option::None,
                },
                Option::None => Option::None,
            },
            Option::None => Option::None,
        }
    }
}

/// Round trip: parsing the canonical text of a spawn record yields the
/// record back, whatever its contents.
#[verifier::rlimit(60)]
pub proof fn lemma_spawn_round_trip(v: EntitySpawnView)
    ensures
        spec_parse_spawn(ser_spawn(v)) == Option::Some(v),
{
    reveal_strlit("entity_type");
    reveal_strlit("room_id");
    reveal_strlit("grid_index");
    reveal_strlit("properties");
    let s = ser_spawn(v);
    let f1 = fld("entity_type"@, ser_quoted(v.entity_type));
    let f2 = fld("room_id"@, dec_rep(v.room_id as nat));
    let f3 = fld("grid_index"@, dec_rep(v.grid_index as nat));
    let f4 = fld("properties"@, ser_prop_map(v.properties));
    lemma_matches_whole(s);
    lemma_matches_split(s, 0, seq!['('], f1 + (f2 + (f3 + (f4 + seq![')']))));
    assert(s[0] == s.subrange(0, 1)[0]);
    assert(s[0] == '(');
    lemma_skip_ws_at(s, 0);
    let q1: int = 1 + f1.len() as int;
    lemma_matches_split(s, 1, f1, f2 + (f3 + (f4 + seq![')'])));
    lemma_field_string_exact(s, 1, "entity_type"@, v.entity_type);
    let q2: int = q1 + f2.len() as int;
    lemma_matches_split(s, q1, f2, f3 + (f4 + seq![')']));
    lemma_field_u32_exact(s, q1, "room_id"@, v.room_id);
    let q3: int = q2 + f3.len() as int;
    lemma_matches_split(s, q2, f3, f4 + seq![')']);
    lemma_field_usize_exact(s, q2, "grid_index"@, v.grid_index);
    let q4: int = q3 + f4.len() as int;
    lemma_matches_split(s, q3, f4, seq![')']);
    lemma_field_props_exact(s, q3, "properties"@, v.properties);
    assert(s[q4] == s.subrange(q4, q4 + 1)[0]);
    assert(s[q4] == ')');
    lemma_skip_ws_at(s, q4);
    assert(q4 + 1 == s.len());
    lemma_skip_ws_at(s, q4 + 1);
}

impl EntitySpawn {
    /// Canonical text of this spawn record.
    pub fn to_text(&self) -> (r: String)
        ensures
            r@ == ser_spawn(self@),
    {
        let mut out: Vec<char> = Vec::new();
        out.push('(');
        push_field_string(&mut out, "entity_type", self.entity_type.as_str());
        push_field_u32(&mut out, "room_id", self.room_id);
        push_field_usize(&mut out, "grid_index", self.grid_index);
        push_field_props(&mut out, "properties", &self.properties);
        out.push(')');
        proof {
            assert(out@ =~= ser_spawn(self@));
        }
        crate::strutil::chars_to_string(&out)
    }

    /// Parse a spawn record from text; yields nothing when the text does
    /// not follow the spawn grammar.
    pub fn from_text(s: &str) -> (r: Option<EntitySpawn>)
        ensures
            match r {
                Some(spawn) => spec_parse_spawn(s@) == Option::Some(spawn@),
                None => spec_parse_spawn(s@) is None,
            },
    {
        let cs = str_chars(s);
        let i0 = skip_ws_at(&cs, 0);
        if !(i0 < cs.len() && cs[i0] == '(') {
            return None;
        }
        let (et, i1) = match field_string_at(&cs, i0 + 1, "entity_type") {
            Some(x) => x,
            None => {
                return None;
            },
        };
        let (room_id, i2) = match field_u32_at(&cs, i1, "room_id") {
            Some(x) => x,
            None => {
                return None;
            },
        };
        let (grid_index, i3) = match field_usize_at(&cs, i2, "grid_index") {
            Some(x) => x,
            None => {
                return None;
            },
        };
        let (properties, i4) = match field_props_at(&cs, i3, "properties") {
            Some(x) => x,
            None => {
                return None;
            },
        };
        let r = skip_ws_at(&cs, i4);
        if !(r < cs.len() && cs[r] == ')') {
            return None;
        }
        let e = skip_ws_at(&cs, r + 1);
        if e != cs.len() {
            return None;
        }
        let entity_type = crate::strutil::chars_to_string(&et);
        Some(EntitySpawn { entity_type, room_id, grid_index, properties })
    }
}

/// Append the canonical spelling of a machine-word field.
pub fn push_field_usize(out: &mut Vec<char>, name: &str, v: usize)
    ensures
        final(out)@ == old(out)@ + fld(name@, dec_rep(v as nat)),
{
    push_lit(out, name);
    out.push(':');
    push_dec_u64(out, v as u64);
    out.push(',');
    assert(final(out)@ =~= old(out)@ + fld(name@, dec_rep(v as nat)));
}

} // verus!
