//! Human-facing string forms of the data types: rendering entity types,
//! identity records and progress, and parsing tags, progress and progress
//! updates back from text.

use vstd::prelude::*;

use crate::entity_base::{EntityBase, EntityType, Tag};
use crate::id::{
    parse_u64_dec, spec_all_digits, spec_dec_digits, spec_dec_value, spec_parses_as_u64,
    u64_to_dec_string,
};
use crate::progress::Progress;
use crate::progress_update::ProgressUpdate;

verus! {

/// Why a piece of text could not be read back as a value.
#[derive(Debug, Clone, Copy, PartialEq, Eq, Structural)]
pub enum AppearanceParseError {
    /// A run of digits was expected and not found (or it overflows).
    NotAnInteger,
    /// A progress string needs a `passed/ceiling` separator.
    MissingSeparator,
    /// A progress ceiling must be at least one.
    ZeroCeiling,
    /// The passed counter may not exceed the ceiling.
    PassedAboveCeiling,
    /// A progress update may not be empty.
    EmptyUpdate,
}

/// The lower-case name of an entity type.
pub open spec fn spec_etype_chars(etype: EntityType) -> Seq<char> {
    match etype {
        EntityType::Section => "section"@,
        EntityType::Regular => "regular"@,
        EntityType::Document => "document"@,
    }
}

/// Renders an entity type in lower case.
pub fn entitytype_to_string(etype: EntityType) -> (r: String)
    ensures
        r@ == spec_etype_chars(etype),
{
    match etype {
        EntityType::Section => "section".to_owned(),
        EntityType::Regular => "regular".to_owned(),
        EntityType::Document => "document".to_owned(),
    }
}

pub open spec fn spec_is_space(c: char) -> bool {
    c == ' ' || c == '\t' || c == '\n' || c == '\r'
}

/// Splitting a character string on `sep`, keeping empty pieces.
pub open spec fn spec_split_chars(s: Seq<char>, sep: char) -> Seq<Seq<char>>
    decreases s.len(),
{
    if s.len() == 0 {
        seq![Seq::<char>::empty()]
    } else if s.last() == sep {
        spec_split_chars(s.drop_last(), sep).push(Seq::<char>::empty())
    } else {
        let prev = spec_split_chars(s.drop_last(), sep);
        prev.update(prev.len() - 1, prev.last().push(s.last()))
    }
}

pub open spec fn spec_trim_start(s: Seq<char>) -> Seq<char>
    decreases s.len(),
{
    if s.len() > 0 && spec_is_space(s.first()) {
        spec_trim_start(s.subrange(1, s.len() as int))
    } else {
        s
    }
}

pub open spec fn spec_trim_end(s: Seq<char>) -> Seq<char>
    decreases s.len(),
{
    if s.len() > 0 && spec_is_space(s.last()) {
        spec_trim_end(s.drop_last())
    } else {
        s
    }
}

/// The string with blank characters removed from both ends.
pub open spec fn spec_trim(s: Seq<char>) -> Seq<char> {
    spec_trim_end(spec_trim_start(s))
}

proof fn lemma_split_chars_len(s: Seq<char>, sep: char)
    ensures
        spec_split_chars(s, sep).len() >= 1,
    decreases s.len(),
{
    if s.len() > 0 {
        lemma_split_chars_len(s.drop_last(), sep);
    }
}

/// Dropping blank leading characters, one index at a time.
proof fn lemma_trim_start_at(s: Seq<char>, a: int)
    requires
        0 <= a <= s.len(),
        forall|j: int| 0 <= j < a ==> spec_is_space(#[trigger] s[j]),
        a < s.len() ==> !spec_is_space(s[a]),
    ensures
        spec_trim_start(s) == s.subrange(a, s.len() as int),
    decreases a,
{
    if a == 0 {
        assert(s.subrange(0, s.len() as int) =~= s);
        if s.len() > 0 {
            assert(!spec_is_space(s.first()));
        }
    } else {
        assert(spec_is_space(s.first()));
        let t = s.subrange(1, s.len() as int);
        assert(forall|j: int| 0 <= j < a - 1 ==> spec_is_space(#[trigger] t[j]));
        lemma_trim_start_at(t, a - 1);
        assert(t.subrange(a - 1, t.len() as int) =~= s.subrange(a, s.len() as int));
    }
}

/// Dropping blank trailing characters, one index at a time.
proof fn lemma_trim_end_at(s: Seq<char>, b: int)
    requires
        0 <= b <= s.len(),
        forall|j: int| b <= j < s.len() ==> spec_is_space(#[trigger] s[j]),
        b > 0 ==> !spec_is_space(s[b - 1]),
    ensures
        spec_trim_end(s) == s.subrange(0, b),
    decreases s.len() - b,
{
    if b == s.len() {
        assert(s.subrange(0, b) =~= s);
        if s.len() > 0 {
            assert(!spec_is_space(s.last()));
        }
    } else {
        assert(spec_is_space(s.last()));
        let t = s.drop_last();
        assert(forall|j: int| b <= j < t.len() ==> spec_is_space(#[trigger] t[j]));
        if b > 0 {
            assert(t[b - 1] == s[b - 1]);
        }
        lemma_trim_end_at(t, b);
        assert(t.subrange(0, b) =~= s.subrange(0, b));
    }
}

/// Removes blank characters from both ends of a string slice.
pub fn trim_str<'a>(s: &'a str) -> (r: &'a str)
    ensures
        r@ == spec_trim(s@),
{
    let n = s.unicode_len();
    let mut a: usize = 0;
    let mut at_word = false;
    while a < n && !at_word
        invariant
            0 <= a <= n,
            n == s@.len(),
            forall|j: int| 0 <= j < a ==> spec_is_space(#[trigger] s@[j]),
            at_word ==> a < n && !spec_is_space(s@[a as int]),
        decreases n - a + (if at_word {
            0int
        } else {
            1int
        }),
    {
        let c = s.get_char(a);
        if c == ' ' || c == '\t' || c == '\n' || c == '\r' {
            a = a + 1;
        } else {
            at_word = true;
        }
    }
    proof {
        lemma_trim_start_at(s@, a as int);
    }
    let ghost t = s@.subrange(a as int, s@.len() as int);
    let mut b: usize = n;
    let mut at_end = false;
    while b > a && !at_end
        invariant
            a <= b <= n,
            n == s@.len(),
            forall|j: int| b <= j < n ==> spec_is_space(#[trigger] s@[j]),
            at_end ==> b > a && !spec_is_space(s@[b as int - 1]),
        decreases b + (if at_end {
            0int
        } else {
            1int
        }),
    {
        let c = s.get_char(b - 1);
        if c == ' ' || c == '\t' || c == '\n' || c == '\r' {
            b = b - 1;
        } else {
            at_end = true;
        }
    }
    proof {
        assert(forall|j: int| b - a <= j < t.len() ==> spec_is_space(#[trigger] t[j]));
        if b > a {
            assert(t[b - a - 1] == s@[b as int - 1]);
        }
        lemma_trim_end_at(t, b - a as int);
        assert(t.subrange(0, b - a as int) =~= s@.subrange(a as int, b as int));
    }
    s.substring_char(a, b)
}

/// Splits on `sep`, keeping every piece as it stands.
pub fn split_string(s: &str, sep: char) -> (r: Vec<String>)
    ensures
        r.deep_view() == spec_split_chars(s@, sep),
{
    let n = s.unicode_len();
    let mut r: Vec<String> = Vec::new();
    let mut start: usize = 0;
    let mut i: usize = 0;
    while i < n
        invariant
            0 <= start <= i <= n,
            n == s@.len(),
            r.deep_view() =~~= spec_split_chars(s@.take(i as int), sep).drop_last(),
            spec_split_chars(s@.take(i as int), sep).last() == s@.subrange(
                start as int,
                i as int,
            ),
        decreases n - i,
    {
        proof {
            assert(s@.take(i as int + 1).drop_last() =~= s@.take(i as int));
            assert(s@.take(i as int + 1).last() == s@[i as int]);
            lemma_split_chars_len(s@.take(i as int), sep);
        }
        let ghost parts = spec_split_chars(s@.take(i as int), sep);
        let c = s.get_char(i);
        if c == sep {
            let piece = s.substring_char(start, i).to_owned();
            let ghost pre = r.deep_view();
            r.push(piece);
            start = i + 1;
            proof {
                assert(r.deep_view() =~~= pre.push(parts.last()));
                assert(spec_split_chars(s@.take(i as int + 1), sep) =~~= parts.push(
                    Seq::<char>::empty(),
                ));
                assert(parts.push(Seq::<char>::empty()).drop_last() =~~= parts);
                assert(s@.subrange(i as int + 1, i as int + 1) =~= Seq::<char>::empty());
            }
        } else {
            proof {
                assert(spec_split_chars(s@.take(i as int + 1), sep) =~~= parts.update(
                    parts.len() - 1,
                    parts.last().push(s@[i as int]),
                ));
                assert(parts.update(parts.len() - 1, parts.last().push(s@[i as int])).drop_last()
                    =~~= parts.drop_last());
                assert(s@.subrange(start as int, i as int).push(s@[i as int]) =~= s@.subrange(
                    start as int,
                    i as int + 1,
                ));
            }
        }
        i = i + 1;
    }
    proof {
        assert(s@.take(n as int) =~= s@);
        lemma_split_chars_len(s@, sep);
    }
    let ghost parts = spec_split_chars(s@, sep);
    let piece = s.substring_char(start, n).to_owned();
    let ghost pre = r.deep_view();
    r.push(piece);
    proof {
        assert(r.deep_view() =~~= pre.push(parts.last()));
        assert(r.deep_view() =~~= parts);
    }
    r
}

/// Splits on commas and trims each piece: the user-facing tag-list syntax.
pub fn parse_string_to_tags(stringifed_tags: &str) -> (r: Vec<Tag>)
    ensures
        r.deep_view() == spec_split_chars(stringifed_tags@, ',').map_values(
            |t: Seq<char>| spec_trim(t),
        ),
{
    let s = stringifed_tags;
    let n = s.unicode_len();
    let mut r: Vec<Tag> = Vec::new();
    let mut start: usize = 0;
    let mut i: usize = 0;
    while i < n
        invariant
            0 <= start <= i <= n,
            n == s@.len(),
            r.deep_view() =~~= spec_split_chars(s@.take(i as int), ',').drop_last().map_values(
                |t: Seq<char>| spec_trim(t),
            ),
            spec_split_chars(s@.take(i as int), ',').last() == s@.subrange(
                start as int,
                i as int,
            ),
        decreases n - i,
    {
        proof {
            assert(s@.take(i as int + 1).drop_last() =~= s@.take(i as int));
            assert(s@.take(i as int + 1).last() == s@[i as int]);
            lemma_split_chars_len(s@.take(i as int), ',');
        }
        let ghost parts = spec_split_chars(s@.take(i as int), ',');
        let c = s.get_char(i);
        if c == ',' {
            let piece = trim_str(s.substring_char(start, i)).to_owned();
            let ghost pre = r.deep_view();
            r.push(piece);
            start = i + 1;
            proof {
                assert(r.deep_view() =~~= pre.push(spec_trim(parts.last())));
                assert(spec_split_chars(s@.take(i as int + 1), ',') =~~= parts.push(
                    Seq::<char>::empty(),
                ));
                assert(parts.push(Seq::<char>::empty()).drop_last() =~~= parts);
                assert(parts.map_values(|t: Seq<char>| spec_trim(t)) =~~= parts.drop_last().map_values(
                    |t: Seq<char>| spec_trim(t),
                ).push(spec_trim(parts.last())));
                assert(s@.subrange(i as int + 1, i as int + 1) =~= Seq::<char>::empty());
            }
        } else {
            proof {
                assert(spec_split_chars(s@.take(i as int + 1), ',') =~~= parts.update(
                    parts.len() - 1,
                    parts.last().push(s@[i as int]),
                ));
                assert(parts.update(parts.len() - 1, parts.last().push(s@[i as int])).drop_last()
                    =~~= parts.drop_last());
                assert(s@.subrange(start as int, i as int).push(s@[i as int]) =~= s@.subrange(
                    start as int,
                    i as int + 1,
                ));
            }
        }
        i = i + 1;
    }
    proof {
        assert(s@.take(n as int) =~= s@);
        lemma_split_chars_len(s@, ',');
    }
    let ghost parts = spec_split_chars(s@, ',');
    let piece = trim_str(s.substring_char(start, n)).to_owned();
    let ghost pre = r.deep_view();
    r.push(piece);
    proof {
        assert(r.deep_view() =~~= pre.push(spec_trim(parts.last())));
        assert(r.deep_view() =~~= parts.map_values(|t: Seq<char>| spec_trim(t)));
    }
    r
}

/// The `passed/ceiling` rendering of a progress record.
pub fn progress_to_string(progress: &Progress) -> (r: String)
    ensures
        r@ == spec_dec_digits(progress.spec_passed() as nat) + seq!['/'] + spec_dec_digits(
            progress.spec_ceiling() as nat,
        ),
{
    let mut s = u64_to_dec_string(progress.passed() as u64);
    s.append("/");
    let ceiling = u64_to_dec_string(progress.ceiling() as u64);
    s.append(ceiling.as_str());
    proof {
        reveal_strlit("/");
        assert("/"@ =~= seq!['/']);
    }
    s
}

/// A nonempty digit run whose value fits the platform's word.
pub open spec fn spec_parses_as_usize(s: Seq<char>) -> bool {
    s.len() > 0 && spec_all_digits(s) && spec_dec_value(s) <= usize::MAX
}

/// Parses a nonempty run of decimal digits as a `usize`.
pub fn parse_string_to_integer(string: &str) -> (r: Result<usize, AppearanceParseError>)
    ensures
        match r {
            Ok(v) => spec_parses_as_usize(string@) && v == spec_dec_value(string@),
            Err(e) => e == AppearanceParseError::NotAnInteger && !spec_parses_as_usize(string@),
        },
{
    match parse_u64_dec(string) {
        Ok(v) => {
            if v <= usize::MAX as u64 {
                Ok(v as usize)
            } else {
                Err(AppearanceParseError::NotAnInteger)
            }
        },
        Err(_) => {
            proof {
                if spec_parses_as_usize(string@) {
                    assert(spec_parses_as_u64(string@));
                }
            }
            Err(AppearanceParseError::NotAnInteger)
        },
    }
}

/// The first position of `c` in `s`, or a negative value if absent.
pub open spec fn spec_find_char(s: Seq<char>, c: char) -> int
    decreases s.len(),
{
    if s.len() == 0 {
        -1
    } else if s.first() == c {
        0
    } else {
        let rest = spec_find_char(s.subrange(1, s.len() as int), c);
        if rest < 0 {
            -1
        } else {
            rest + 1
        }
    }
}

/// Scanning for the first hit matches `spec_find_char`.
proof fn lemma_find_char_at(s: Seq<char>, c: char, pos: int)
    requires
        0 <= pos <= s.len(),
        forall|j: int| 0 <= j < pos ==> s[j] != c,
        pos < s.len() ==> s[pos] == c,
    ensures
        spec_find_char(s, c) == if pos == s.len() {
            -1
        } else {
            pos
        },
    decreases pos,
{
    if pos == 0 {
        if s.len() > 0 && pos == s.len() {
        }
    } else {
        assert(s.first() != c);
        let t = s.subrange(1, s.len() as int);
        assert(forall|j: int| 0 <= j < pos - 1 ==> t[j] != c);
        if pos - 1 < t.len() {
            assert(t[pos - 1] == s[pos]);
        }
        lemma_find_char_at(t, c, pos - 1);
    }
}

/// Parses `passed/ceiling`. The separator must be present, both sides must
/// be digit runs, the ceiling must be positive, and the passed counter may
/// not exceed it.
pub fn progress_from_string(s: &str) -> (r: Result<Progress, AppearanceParseError>)
    ensures
        ({
            let i = spec_find_char(s@, '/');
            let left = s@.take(i);
            let right = s@.skip(i + 1);
            match r {
                Err(AppearanceParseError::MissingSeparator) => i < 0,
                Err(AppearanceParseError::NotAnInteger) => i >= 0 && (!spec_parses_as_usize(left)
                    || !spec_parses_as_usize(right)),
                Err(AppearanceParseError::PassedAboveCeiling) => i >= 0 && spec_parses_as_usize(
                    left,
                ) && spec_parses_as_usize(right) && spec_dec_value(left) > spec_dec_value(right),
                Err(AppearanceParseError::ZeroCeiling) => i >= 0 && spec_parses_as_usize(left)
                    && spec_parses_as_usize(right) && spec_dec_value(left) <= spec_dec_value(
                    right,
                ) && spec_dec_value(right) == 0,
                Ok(p) => i >= 0 && spec_parses_as_usize(left) && spec_parses_as_usize(right)
                    && spec_dec_value(left) <= spec_dec_value(right) && spec_dec_value(right) >= 1
                    && p.wf() && p.spec_passed() == spec_dec_value(left) && p.spec_ceiling()
                    == spec_dec_value(right),
                _ => false,
            }
        }),
{
    let n = s.unicode_len();
    let mut i: usize = 0;
    let mut found = false;
    while i < n && !found
        invariant
            0 <= i <= n,
            n == s@.len(),
            found ==> i < n && s@[i as int] == '/',
            forall|j: int| 0 <= j < i ==> s@[j] != '/',
        decreases n - i + (if found {
            0int
        } else {
            1int
        }),
    {
        if s.get_char(i) == '/' {
            found = true;
        } else {
            i = i + 1;
        }
    }
    proof {
        if found {
            lemma_find_char_at(s@, '/', i as int);
        } else {
            lemma_find_char_at(s@, '/', n as int);
        }
    }
    if !found {
        return Err(AppearanceParseError::MissingSeparator);
    }
    let left = s.substring_char(0, i);
    let right = s.substring_char(i + 1, n);
    proof {
        assert(left@ =~= s@.take(i as int));
        assert(right@ =~= s@.skip(i as int + 1));
    }
    let passed = match parse_string_to_integer(left) {
        Ok(v) => v,
        Err(_) => {
            return Err(AppearanceParseError::NotAnInteger);
        },
    };
    let ceiling = match parse_string_to_integer(right) {
        Ok(v) => v,
        Err(_) => {
            return Err(AppearanceParseError::NotAnInteger);
        },
    };
    if passed > ceiling {
        return Err(AppearanceParseError::PassedAboveCeiling);
    }
    if ceiling == 0 {
        return Err(AppearanceParseError::ZeroCeiling);
    }
    Ok(Progress::with_passed(passed, ceiling))
}

/// Parses a progress update: `+n` increases, `-n` decreases, a bare number
/// sets the counter exactly.
pub fn progress_update_from_string(s: &str) -> (r: Result<
    ProgressUpdate,
    AppearanceParseError,
>)
    ensures
        ({
            let rest = s@.skip(1);
            match r {
                Err(AppearanceParseError::EmptyUpdate) => s@.len() == 0,
                Ok(u) => s@.len() > 0 && (if s@[0] == '+' {
                    spec_parses_as_usize(rest) && u == ProgressUpdate::Increase(
                        spec_dec_value(rest) as usize,
                    )
                } else if s@[0] == '-' {
                    spec_parses_as_usize(rest) && u == ProgressUpdate::Decrease(
                        spec_dec_value(rest) as usize,
                    )
                } else {
                    spec_parses_as_usize(s@) && u == ProgressUpdate::SetTo(
                        spec_dec_value(s@) as usize,
                    )
                }),
                Err(AppearanceParseError::NotAnInteger) => s@.len() > 0 && (if s@[0] == '+'
                    || s@[0] == '-' {
                    !spec_parses_as_usize(rest)
                } else {
                    !spec_parses_as_usize(s@)
                }),
                _ => false,
            }
        }),
{
    let n = s.unicode_len();
    if n == 0 {
        return Err(AppearanceParseError::EmptyUpdate);
    }
    let first = s.get_char(0);
    if first == '+' || first == '-' {
        let rest = s.substring_char(1, n);
        proof {
            assert(rest@ =~= s@.skip(1));
        }
        match parse_string_to_integer(rest) {
            Ok(v) => {
                if first == '+' {
                    Ok(ProgressUpdate::increase(v))
                } else {
                    Ok(ProgressUpdate::decrease(v))
                }
            },
            Err(e) => Err(e),
        }
    } else {
        match parse_string_to_integer(s) {
            Ok(v) => Ok(ProgressUpdate::set(v)),
            Err(e) => Err(e),
        }
    }
}

/// The tag list joined by commas, in order.
pub open spec fn spec_tags_joined(ts: Seq<Seq<char>>) -> Seq<char>
    decreases ts.len(),
{
    if ts.len() == 0 {
        Seq::<char>::empty()
    } else if ts.len() == 1 {
        ts[0]
    } else {
        spec_tags_joined(ts.drop_last()) + ", "@ + ts.last()
    }
}

/// Renders a tag list, or a placeholder when there is none.
pub fn tags_to_string(tags: &Vec<Tag>) -> (r: String)
    ensures
        r@ == if tags@.len() == 0 {
            "<no tags>"@
        } else {
            spec_tags_joined(tags.deep_view())
        },
{
    if tags.len() == 0 {
        return "<no tags>".to_owned();
    }
    let mut s = tags[0].clone();
    proof {
        assert(tags.deep_view().take(1)[0] == tags.deep_view()[0]);
        assert(s@ == spec_tags_joined(tags.deep_view().take(1)));
    }
    let mut i: usize = 1;
    while i < tags.len()
        invariant
            1 <= i <= tags@.len(),
            tags.deep_view().len() == tags@.len(),
            s@ == spec_tags_joined(tags.deep_view().take(i as int)),
        decreases tags@.len() - i,
    {
        s.append(", ");
        s.append(tags[i].as_str());
        proof {
            let dv = tags.deep_view();
            assert(dv.take(i as int + 1).drop_last() =~= dv.take(i as int));
            assert(dv.take(i as int + 1).last() == dv[i as int]);
            assert(dv[i as int] == tags@[i as int]@);
            assert(s@ == spec_tags_joined(dv.take(i as int + 1)));
        }
        i = i + 1;
    }
    proof {
        assert(tags.deep_view().take(tags@.len() as int) =~= tags.deep_view());
    }
    s
}

/// The one-line rendering of an identity record.
pub fn entitybase_to_oneline_string(entitybase: &EntityBase) -> (r: String)
    ensures
        r@ == "{ id: "@ + spec_dec_digits(entitybase.id.0 as nat) + ", name: '"@
            + entitybase.name@ + "' }"@,
{
    let mut s = "{ id: ".to_owned();
    let id_str = entitybase.id.to_dec_string();
    s.append(id_str.as_str());
    s.append(", name: '");
    s.append(entitybase.name.as_str());
    s.append("' }");
    s
}

/// The multi-line rendering of an identity record.
pub fn entitybase_to_fullinfo_string(entitybase: &EntityBase) -> (r: String)
    ensures
        r@ == "Name: '"@ + entitybase.name@ + "'\nID: "@ + spec_dec_digits(
            entitybase.id.0 as nat,
        ) + "\nType: "@ + spec_etype_chars(entitybase.etype) + "\nTags: "@ + (if entitybase@.tags.len() == 0 {
            "<no tags>"@
        } else {
            spec_tags_joined(entitybase@.tags)
        }),
{
    let mut s = "Name: '".to_owned();
    s.append(entitybase.name.as_str());
    s.append("'\nID: ");
    let id_str = entitybase.id.to_dec_string();
    s.append(id_str.as_str());
    s.append("\nType: ");
    let etype_str = entitytype_to_string(entitybase.etype);
    s.append(etype_str.as_str());
    s.append("\nTags: ");
    let tags_str = tags_to_string(&entitybase.tags);
    s.append(tags_str.as_str());
    s
}

} // verus!
