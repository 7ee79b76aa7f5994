//! Staging private font files for the host's next launch: which files of the
//! font folder count as fonts, the order they are staged in, and which are
//! copied and counted.
//!
//! The caller walks the folders and copies the files; this module decides.
use vstd::prelude::*;
use crate::text::{chars_of, push_str, string_from_chars};

verus! {

/// A path separator: `/` or `\`, as Windows paths have them.
pub open spec fn is_separator(c: char) -> bool {
    c == '/' || c == '\\'
}

/// Whether the last character of a path is a `.` that stands alone as a
/// component: at the start of the path or just after a separator.
pub open spec fn ends_with_current_dir(path: Seq<char>) -> bool {
    path.len() > 0 && path.last() == '.' && (path.len() == 1 || is_separator(
        path[path.len() - 2],
    ))
}

/// The path without what follows its last named component: trailing
/// separators and `.` components, which name no file.
pub open spec fn trim_tail(path: Seq<char>) -> Seq<char>
    decreases path.len(),
{
    if path.len() > 0 && (is_separator(path.last()) || ends_with_current_dir(path)) {
        trim_tail(path.drop_last())
    } else {
        path
    }
}

/// The characters after the last separator.
pub open spec fn last_component(path: Seq<char>) -> Seq<char>
    decreases path.len(),
{
    if path.len() == 0 || is_separator(path.last()) {
        Seq::empty()
    } else {
        last_component(path.drop_last()).push(path.last())
    }
}

/// The file name of a path: its last component, trailing separators and
/// `.` components left aside; none where there is no such component or it
/// is `..`.
pub open spec fn spec_file_name(path: Seq<char>) -> Option<Seq<char>> {
    let name = last_component(trim_tail(path));
    if name.len() == 0 || name == seq!['.'] || name == seq!['.', '.'] {
        None
    } else {
        Some(name)
    }
}

/// The position of the last `.` of a name.
pub open spec fn last_dot(name: Seq<char>) -> Option<int>
    decreases name.len(),
{
    if name.len() == 0 {
        None
    } else if name.last() == '.' {
        Some(name.len() - 1)
    } else {
        last_dot(name.drop_last())
    }
}

/// What follows the last `.` of a file name, where that `.` is not its
/// first character.
pub open spec fn spec_extension(name: Seq<char>) -> Option<Seq<char>> {
    match last_dot(name) {
        Some(i) => if i > 0 {
            Some(name.subrange(i + 1, name.len() as int))
        } else {
            None
        },
        None => None,
    }
}

/// ASCII letters in lower case, other characters as they are.
pub open spec fn ascii_lower(c: char) -> char {
    if 'A' <= c && c <= 'Z' {
        ((c as u32) + 32) as char
    } else {
        c
    }
}

pub open spec fn supported_extension(ext: Seq<char>) -> bool {
    let lower = ext.map_values(|c: char| ascii_lower(c));
    lower == seq!['t', 't', 'f'] || lower == seq!['o', 't', 'f'] || lower == seq!['t', 't', 'c']
        || lower == seq!['o', 't', 'c']
}

/// A path of a font file: its extension is `ttf`, `otf`, `ttc` or `otc` in
/// any case.
pub open spec fn spec_supported_font_path(path: Seq<char>) -> bool {
    match spec_file_name(path) {
        Some(name) => match spec_extension(name) {
            Some(ext) => supported_extension(ext),
            None => false,
        },
        None => false,
    }
}

fn is_separator_char(c: char) -> (r: bool)
    ensures
        r == is_separator(c),
{
    c == '/' || c == '\\'
}

/// The file name of a path: its last component after `/` or `\`, trailing
/// separators and `.` components left aside; `None` where there is no such
/// component or it is `..`.
pub fn file_name_of(path: &str) -> (name: Option<String>)
    ensures
        match name {
            Some(n) => spec_file_name(path@) == Some(n@),
            None => spec_file_name(path@) is None,
        },
{
    let chars = chars_of(path);
    let mut end = chars.len();
    assert(path@.take(end as int) =~= path@);
    while end > 0 && (is_separator_char(chars[end - 1]) || (chars[end - 1] == '.' && (end == 1
        || is_separator_char(chars[end - 2]))))
        invariant
            chars@ == path@,
            end <= chars@.len(),
            trim_tail(path@) == trim_tail(path@.take(end as int)),
        decreases end,
    {
        assert(path@.take(end as int).drop_last() =~= path@.take(end - 1));
        end -= 1;
    }
    assert(path@.take(end as int) == trim_tail(path@.take(end as int)));
    let mut start = end;
    while start > 0 && !is_separator_char(chars[start - 1])
        invariant
            chars@ == path@,
            start <= end <= chars@.len(),
            last_component(path@.take(end as int)) == last_component(path@.take(start as int))
                + path@.subrange(start as int, end as int),
        decreases start,
    {
        let ghost prefix = path@.take(start as int);
        assert(prefix.drop_last() =~= path@.take(start - 1));
        assert(path@.subrange(start - 1, end as int) =~= seq![path@[start - 1]] + path@.subrange(
            start as int,
            end as int,
        ));
        assert(last_component(prefix) =~= last_component(path@.take(start - 1)).push(
            path@[start - 1],
        ));
        assert(last_component(path@.take(start - 1)).push(path@[start - 1]) + path@.subrange(
            start as int,
            end as int,
        ) =~= last_component(path@.take(start - 1)) + path@.subrange(start - 1, end as int));
        start -= 1;
    }
    assert(last_component(path@.take(start as int)) =~= Seq::<char>::empty());
    let name = string_from_chars(&chars, start, end);
    assert(name@ =~= last_component(trim_tail(path@)));
    let length = end - start;
    if length == 0 || (length == 1 && chars[start] == '.') || (length == 2 && chars[start] == '.'
        && chars[start + 1] == '.') {
        proof {
            if length == 1 {
                assert(name@ =~= seq!['.']);
            }
            if length == 2 {
                assert(name@ =~= seq!['.', '.']);
            }
        }
        None
    } else {
        proof {
            if name@ == seq!['.'] {
                assert(name@[0] == chars@[start as int]);
            }
            if name@ == seq!['.', '.'] {
                assert(name@[0] == chars@[start as int]);
                assert(name@[1] == chars@[start + 1]);
            }
        }
        Some(name)
    }
}

/// Whether a path names a font file: its extension is `ttf`, `otf`, `ttc`
/// or `otc` in any case.
pub fn is_supported_font_path(path: &str) -> (supported: bool)
    ensures
        supported == spec_supported_font_path(path@),
{
    let name = match file_name_of(path) {
        Some(n) => n,
        None => {
            return false;
        },
    };
    let chars = chars_of(name.as_str());
    let mut i = chars.len();
    assert(name@.take(i as int) =~= name@);
    while i > 0 && chars[i - 1] != '.'
        invariant
            chars@ == name@,
            i <= chars@.len(),
            last_dot(name@) == last_dot(name@.take(i as int)),
        decreases i,
    {
        assert(name@.take(i as int).drop_last() =~= name@.take(i - 1));
        i -= 1;
    }
    if i <= 1 {
        proof {
            if i == 1 {
                assert(name@.take(1).last() == '.');
            } else {
                assert(name@.take(0) =~= Seq::<char>::empty());
            }
        }
        return false;
    }
    assert(name@.take(i as int).last() == '.');
    assert(last_dot(name@) == Some(i - 1));
    let ext_len = chars.len() - i;
    if ext_len != 3 {
        proof {
            let ext = name@.subrange(i as int, name@.len() as int);
            assert(ext.map_values(|c: char| ascii_lower(c)).len() == ext_len);
        }
        return false;
    }
    let a = lower_ascii(chars[i]);
    let b = lower_ascii(chars[i + 1]);
    let c = lower_ascii(chars[i + 2]);
    let ghost ext = name@.subrange(i as int, name@.len() as int);
    let ghost lower = ext.map_values(|c: char| ascii_lower(c));
    assert(lower =~= seq![a, b, c]);
    (a == 't' && b == 't' && c == 'f') || (a == 'o' && b == 't' && c == 'f') || (a == 't' && b
        == 't' && c == 'c') || (a == 'o' && b == 't' && c == 'c')
}

fn lower_ascii(c: char) -> (r: char)
    ensures
        r == ascii_lower(c),
{
    if 'A' <= c && c <= 'Z' {
        let code: u8 = (c as u8) + 32;
        code as char
    } else {
        c
    }
}

/// `a` comes before `b` in the order of their characters' code points, a
/// proper prefix first: the order in which the host's file names are kept.
pub open spec fn name_less(a: Seq<char>, b: Seq<char>) -> bool
    decreases a.len(),
{
    if a.len() == 0 {
        b.len() > 0
    } else if b.len() == 0 {
        false
    } else if a[0] != b[0] {
        a[0] < b[0]
    } else {
        name_less(a.drop_first(), b.drop_first())
    }
}

/// No name comes before itself, and of two names at most one comes first.
pub proof fn lemma_name_less_asymmetric(a: Seq<char>, b: Seq<char>)
    ensures
        !(name_less(a, b) && name_less(b, a)),
        !name_less(a, a),
    decreases a.len(),
{
    if a.len() > 0 && b.len() > 0 && a[0] == b[0] {
        lemma_name_less_asymmetric(a.drop_first(), b.drop_first());
    }
    if a.len() > 0 {
        lemma_name_less_asymmetric(a.drop_first(), a.drop_first());
    }
}

/// Of two different names, one comes first.
pub proof fn lemma_name_less_total(a: Seq<char>, b: Seq<char>)
    ensures
        a == b || name_less(a, b) || name_less(b, a),
    decreases a.len(),
{
    if a.len() > 0 && b.len() > 0 && a[0] == b[0] {
        lemma_name_less_total(a.drop_first(), b.drop_first());
        if a.drop_first() == b.drop_first() {
            assert(a =~= seq![a[0]] + a.drop_first());
            assert(b =~= seq![b[0]] + b.drop_first());
        }
    } else if a.len() == 0 && b.len() == 0 {
        assert(a =~= b);
    } else if a.len() > 0 && b.len() > 0 {
        assert((a[0] as int) != (b[0] as int));
    }
}

/// The order is transitive.
pub proof fn lemma_name_less_transitive(a: Seq<char>, b: Seq<char>, c: Seq<char>)
    requires
        name_less(a, b),
        name_less(b, c),
    ensures
        name_less(a, c),
    decreases a.len(),
{
    if a.len() > 0 && b.len() > 0 && c.len() > 0 && a[0] == b[0] && b[0] == c[0] {
        lemma_name_less_transitive(a.drop_first(), b.drop_first(), c.drop_first());
    }
}

/// With equal first `i` characters, the order is that of the rests.
proof fn lemma_name_less_skip(a: Seq<char>, b: Seq<char>, i: int)
    requires
        0 <= i <= a.len(),
        i <= b.len(),
        a.take(i) == b.take(i),
    ensures
        name_less(a, b) == name_less(a.skip(i), b.skip(i)),
    decreases i,
{
    if i > 0 {
        assert(a[0] == a.take(i)[0]);
        assert(b[0] == b.take(i)[0]);
        assert(a.drop_first().take(i - 1) =~= a.take(i).drop_first());
        assert(b.drop_first().take(i - 1) =~= b.take(i).drop_first());
        lemma_name_less_skip(a.drop_first(), b.drop_first(), i - 1);
        assert(a.drop_first().skip(i - 1) =~= a.skip(i));
        assert(b.drop_first().skip(i - 1) =~= b.skip(i));
    } else {
        assert(a.skip(0) =~= a);
        assert(b.skip(0) =~= b);
    }
}

/// Compares two names: below zero where `a` comes first, zero where they are
/// equal, above zero where `b` comes first.
pub fn compare_names(a: &str, b: &str) -> (r: i8)
    ensures
        r < 0 <==> name_less(a@, b@),
        r == 0 <==> a@ == b@,
        r > 0 <==> name_less(b@, a@),
{
    let x = chars_of(a);
    let y = chars_of(b);
    proof {
        lemma_name_less_asymmetric(a@, b@);
    }
    let mut i: usize = 0;
    while i < x.len() && i < y.len()
        invariant
            x@ == a@,
            y@ == b@,
            i <= x@.len(),
            i <= y@.len(),
            a@.take(i as int) == b@.take(i as int),
        decreases x@.len() - i,
    {
        if x[i] != y[i] {
            proof {
                lemma_name_less_skip(a@, b@, i as int);
                lemma_name_less_skip(b@, a@, i as int);
                assert(a@.skip(i as int)[0] == x@[i as int]);
                assert(b@.skip(i as int)[0] == y@[i as int]);
                if a@ == b@ {
                    assert(x@[i as int] == y@[i as int]);
                }
                assert((x@[i as int] as int) != (y@[i as int] as int));
            }
            if x[i] < y[i] {
                return -1;
            } else {
                return 1;
            }
        }
        assert(a@.take(i + 1) =~= a@.take(i as int).push(x@[i as int]));
        assert(b@.take(i + 1) =~= b@.take(i as int).push(y@[i as int]));
        i += 1;
    }
    proof {
        lemma_name_less_skip(a@, b@, i as int);
        lemma_name_less_skip(b@, a@, i as int);
        if i == x.len() && i == y.len() {
            assert(a@ =~= a@.take(i as int));
            assert(b@ =~= b@.take(i as int));
        }
        if i < y.len() {
            assert(a@ != b@ ==> true);
            assert(a@.len() != b@.len());
        }
        if i < x.len() {
            assert(a@.len() != b@.len());
        }
    }
    if x.len() == y.len() {
        0
    } else if x.len() < y.len() {
        -1
    } else {
        1
    }
}

/// What is found at the destination under a font's file name.
#[derive(Clone, Copy, Debug, PartialEq, Eq, Structural)]
pub enum DestinationKind {
    /// Nothing: the font is copied.
    Missing,
    /// A file: the font is already staged.
    File,
    /// Something else, such as a folder: staging stops there.
    Other,
}

/// How many font files the source holds, and how many of them were copied
/// or were there already.
#[derive(Clone, Copy, Debug, PartialEq, Eq, Structural)]
pub struct FontStageOutcome {
    pub source_file_count: usize,
    pub added_file_count: usize,
    pub existing_file_count: usize,
}

impl Default for FontStageOutcome {
    fn default() -> (outcome: Self)
        ensures
            outcome == (FontStageOutcome {
                source_file_count: 0,
                added_file_count: 0,
                existing_file_count: 0,
            }),
    {
        FontStageOutcome { source_file_count: 0, added_file_count: 0, existing_file_count: 0 }
    }
}

/// A font file to stage: its file name, its path in the source, and what
/// the destination holds under that name.
#[derive(Debug)]
pub struct StagedFont {
    pub file_name: String,
    pub source_path: String,
    pub destination: DestinationKind,
}

/// The decisions of one staging: all fonts in the order of their file
/// names, the positions of those to copy, in order, the counts, and the
/// position where a destination that is not a file stops the staging.
#[derive(Debug)]
pub struct StagingPlan {
    pub fonts: Vec<StagedFont>,
    pub copies: Vec<usize>,
    pub outcome: FontStageOutcome,
    pub failure: Option<usize>,
}

/// Stages the fonts of the source folder for the host's next launch.
#[derive(Debug)]
pub struct FontRegistrationState;

impl Default for FontRegistrationState {
    fn default() -> (state: Self) {
        FontRegistrationState
    }
}

/// The file name of path `i`.
pub open spec fn name_at(files: Seq<String>, i: int) -> Option<Seq<char>> {
    spec_file_name(files[i]@)
}

/// Paths `0..i` have file names, and no two of them the same.
pub open spec fn names_distinct_before(files: Seq<String>, i: int) -> bool {
    &&& forall|j: int| 0 <= j < i ==> (#[trigger] name_at(files, j)) is Some
    &&& forall|j: int, k: int|
        0 <= j < k < i ==> #[trigger] name_at(files, j) != #[trigger] name_at(files, k)
}

/// The message for path `i`, the first whose name is missing or repeats an
/// earlier one.
pub open spec fn problem_message(files: Seq<String>, i: int) -> Seq<char> {
    match name_at(files, i) {
        None => "font path has no file name: "@ + files[i]@,
        Some(name) => {
            let j = choose|j: int| 0 <= j < i && name_at(files, j) == Some(name);
            "duplicate private font file name "@ + name + ": "@ + files[j]@ + " and "@
                + files[i]@
        },
    }
}

/// A staged font stands for path `i`.
pub open spec fn stands_for(
    font: StagedFont,
    files: Seq<String>,
    destinations: Seq<DestinationKind>,
    i: int,
) -> bool {
    &&& name_at(files, i) == Some(font.file_name@)
    &&& font.source_path@ == files[i]@
    &&& font.destination == destinations[i]
}

/// Path `j` has its font among `fonts`.
pub open spec fn path_staged(
    fonts: Seq<StagedFont>,
    files: Seq<String>,
    dests: Seq<DestinationKind>,
    j: int,
) -> bool {
    exists|p: int| 0 <= p < fonts.len() && #[trigger] stands_for(fonts[p], files, dests, j)
}

/// Font `q` stands for one of paths `0..i`.
pub open spec fn font_from_path(
    fonts: Seq<StagedFont>,
    files: Seq<String>,
    dests: Seq<DestinationKind>,
    q: int,
    i: int,
) -> bool {
    exists|j: int| 0 <= j < i && #[trigger] stands_for(fonts[q], files, dests, j)
}

/// The staged fonts are in the order of their file names, without repeats.
pub open spec fn fonts_sorted(fonts: Seq<StagedFont>) -> bool {
    forall|p: int, q: int|
        0 <= p < q < fonts.len() ==> name_less(
            (#[trigger] fonts[p]).file_name@,
            (#[trigger] fonts[q]).file_name@,
        )
}

/// The positions before `m` whose destination holds nothing.
pub open spec fn missing_positions(fonts: Seq<StagedFont>, m: int) -> Seq<usize>
    decreases m,
{
    if m <= 0 {
        Seq::empty()
    } else if fonts[m - 1].destination == DestinationKind::Missing {
        missing_positions(fonts, m - 1).push((m - 1) as usize)
    } else {
        missing_positions(fonts, m - 1)
    }
}

/// How many positions before `m` have a file at their destination.
pub open spec fn file_count(fonts: Seq<StagedFont>, m: int) -> int
    decreases m,
{
    if m <= 0 {
        0
    } else if fonts[m - 1].destination == DestinationKind::File {
        file_count(fonts, m - 1) + 1
    } else {
        file_count(fonts, m - 1)
    }
}

/// The decisions of a plan over its fonts: staging goes on until the first
/// destination that is neither empty nor a file; before it, fonts without
/// a destination file are copied and the others counted as existing.
pub open spec fn decisions_match(plan: StagingPlan) -> bool {
    let fonts = plan.fonts@;
    let stop = match plan.failure {
        Some(p) => p as int,
        None => fonts.len() as int,
    };
    &&& 0 <= stop <= fonts.len()
    &&& plan.failure matches Some(p) ==> p < fonts.len() && fonts[p as int].destination
        == DestinationKind::Other
    &&& forall|p: int| 0 <= p < stop ==> (#[trigger] fonts[p]).destination != DestinationKind::Other
    &&& plan.copies@ == missing_positions(fonts, stop)
    &&& plan.outcome.source_file_count == fonts.len()
    &&& plan.outcome.added_file_count == plan.copies@.len()
    &&& plan.outcome.existing_file_count == file_count(fonts, stop)
}

/// A staging plan for the given paths: every path's font once, in the
/// order of the file names, each font standing for a path, with the
/// decisions over them.
pub open spec fn plan_matches(
    plan: StagingPlan,
    files: Seq<String>,
    destinations: Seq<DestinationKind>,
) -> bool {
    let fonts = plan.fonts@;
    &&& fonts.len() == files.len()
    &&& fonts_sorted(fonts)
    &&& forall|i: int| 0 <= i < files.len() ==> #[trigger] path_staged(fonts, files, destinations, i)
    &&& forall|q: int|
        0 <= q < fonts.len() ==> #[trigger] font_from_path(fonts, files, destinations, q, files.len() as int)
    &&& decisions_match(plan)
}

fn no_file_name_message(path: &String) -> (message: String)
    ensures
        message@ == "font path has no file name: "@ + path@,
{
    let mut message = String::new();
    push_str(&mut message, "font path has no file name: ");
    push_str(&mut message, path.as_str());
    assert(message@ =~= "font path has no file name: "@ + path@);
    message
}

fn duplicate_name_message(name: &String, previous: &String, path: &String) -> (message: String)
    ensures
        message@ == "duplicate private font file name "@ + name@ + ": "@ + previous@ + " and "@
            + path@,
{
    let mut message = String::new();
    push_str(&mut message, "duplicate private font file name ");
    push_str(&mut message, name.as_str());
    push_str(&mut message, ": ");
    push_str(&mut message, previous.as_str());
    push_str(&mut message, " and ");
    push_str(&mut message, path.as_str());
    assert(message@ =~= "duplicate private font file name "@ + name@ + ": "@ + previous@
        + " and "@ + path@);
    message
}

/// Where a name goes among fonts sorted by name: `Ok` with the position
/// that keeps the order, or `Err` with the position of a font of that name.
fn locate_name(fonts: &Vec<StagedFont>, name: &String) -> (found: Result<usize, usize>)
    requires
        fonts_sorted(fonts@),
    ensures
        match found {
            Ok(p) => p <= fonts@.len() && (forall|q: int|
                0 <= q < p ==> name_less((#[trigger] fonts@[q]).file_name@, name@)) && (forall|
                q: int,
            | p <= q < fonts@.len() ==> name_less(name@, (#[trigger] fonts@[q]).file_name@)),
            Err(p) => p < fonts@.len() && fonts@[p as int].file_name@ == name@,
        },
{
    let mut p: usize = 0;
    while p < fonts.len()
        invariant
            fonts_sorted(fonts@),
            p <= fonts@.len(),
            forall|q: int| 0 <= q < p ==> name_less((#[trigger] fonts@[q]).file_name@, name@),
        decreases fonts@.len() - p,
    {
        let order = compare_names(fonts[p].file_name.as_str(), name.as_str());
        if order == 0 {
            return Err(p);
        }
        if order > 0 {
            proof {
                assert forall|q: int| p <= q < fonts@.len() implies name_less(
                    name@,
                    (#[trigger] fonts@[q]).file_name@,
                ) by {
                    if q > p {
                        lemma_name_less_transitive(
                            name@,
                            fonts@[p as int].file_name@,
                            fonts@[q].file_name@,
                        );
                    }
                }
            }
            return Ok(p);
        }
        p += 1;
    }
    Ok(p)
}

/// The first position whose destination is neither empty nor a file.
fn first_blocked(fonts: &Vec<StagedFont>) -> (stop: Option<usize>)
    ensures
        match stop {
            Some(p) => p < fonts@.len() && fonts@[p as int].destination == DestinationKind::Other,
            None => true,
        },
        forall|q: int|
            0 <= q < (match stop {
                Some(p) => p as int,
                None => fonts@.len() as int,
            }) ==> (#[trigger] fonts@[q]).destination != DestinationKind::Other,
{
    let mut p: usize = 0;
    while p < fonts.len()
        invariant
            p <= fonts@.len(),
            forall|q: int| 0 <= q < p ==> (#[trigger] fonts@[q]).destination != DestinationKind::Other,
        decreases fonts@.len() - p,
    {
        if fonts[p].destination == DestinationKind::Other {
            return Some(p);
        }
        p += 1;
    }
    None
}

/// What the fonts gathered from paths `0..i` keep: they are sorted, each
/// path has its font, and each font stands for a path.
pub open spec fn gathered(
    fonts: Seq<StagedFont>,
    files: Seq<String>,
    dests: Seq<DestinationKind>,
    i: int,
) -> bool {
    &&& names_distinct_before(files, i)
    &&& fonts.len() == i
    &&& fonts_sorted(fonts)
    &&& forall|j: int| 0 <= j < i ==> #[trigger] path_staged(fonts, files, dests, j)
    &&& forall|q: int| 0 <= q < fonts.len() ==> #[trigger] font_from_path(fonts, files, dests, q, i)
}

/// A font of the same name as path `i` among those of paths `0..i` makes
/// path `i` the first problem, and the message names the earlier path.
proof fn lemma_duplicate_found(
    fonts: Seq<StagedFont>,
    files: Seq<String>,
    dests: Seq<DestinationKind>,
    i: int,
    p: int,
    name: Seq<char>,
)
    requires
        0 <= i < files.len(),
        gathered(fonts, files, dests, i),
        name_at(files, i) == Some(name),
        0 <= p < fonts.len(),
        fonts[p].file_name@ == name,
    ensures
        !names_distinct_before(files, i + 1),
        problem_message(files, i) == "duplicate private font file name "@ + name + ": "@
            + fonts[p].source_path@ + " and "@ + files[i]@,
{
    let f = fonts[p];
    assert(font_from_path(fonts, files, dests, p, i));
    let j0 = choose|j: int| 0 <= j < i && stands_for(fonts[p], files, dests, j);
    assert(stands_for(fonts[p], files, dests, j0));
    assert(name_at(files, j0) == name_at(files, i));
    let j = choose|j: int| 0 <= j < i && name_at(files, j) == Some(name);
    assert(0 <= j < i && name_at(files, j) == Some(name));
    if j != j0 {
        if j < j0 {
            assert(name_at(files, j) != name_at(files, j0));
        } else {
            assert(name_at(files, j0) != name_at(files, j));
        }
    }
}

proof fn lemma_insert_sorted(old_fonts: Seq<StagedFont>, p: int, font: StagedFont)
    requires
        fonts_sorted(old_fonts),
        0 <= p <= old_fonts.len(),
        forall|q: int| 0 <= q < p ==> name_less((#[trigger] old_fonts[q]).file_name@, font.file_name@),
        forall|q: int|
            p <= q < old_fonts.len() ==> name_less(font.file_name@, (#[trigger] old_fonts[q]).file_name@),
    ensures
        fonts_sorted(old_fonts.insert(p, font)),
{
    let fonts = old_fonts.insert(p, font);
    old_fonts.insert_ensures(p, font);
    let name = font.file_name@;
    assert forall|a: int, b: int|
        0 <= a < b < fonts.len() implies name_less(
        (#[trigger] fonts[a]).file_name@,
        (#[trigger] fonts[b]).file_name@,
    ) by {
        if b < p {
            assert(name_less(old_fonts[a].file_name@, old_fonts[b].file_name@));
        } else if b == p {
            assert(name_less(old_fonts[a].file_name@, name));
        } else if a < p {
            assert(fonts[b] == old_fonts[b - 1]);
            assert(name_less(old_fonts[a].file_name@, name));
            assert(name_less(name, old_fonts[b - 1].file_name@));
            lemma_name_less_transitive(old_fonts[a].file_name@, name, old_fonts[b - 1].file_name@);
        } else if a == p {
            assert(fonts[b] == old_fonts[b - 1]);
        } else {
            assert(fonts[a] == old_fonts[a - 1]);
            assert(fonts[b] == old_fonts[b - 1]);
            assert(name_less(old_fonts[a - 1].file_name@, old_fonts[b - 1].file_name@));
        }
    }
}

proof fn lemma_insert_covers(
    old_fonts: Seq<StagedFont>,
    files: Seq<String>,
    dests: Seq<DestinationKind>,
    i: int,
    p: int,
    font: StagedFont,
)
    requires
        0 <= p <= old_fonts.len(),
        stands_for(font, files, dests, i),
        forall|j: int| 0 <= j < i ==> #[trigger] path_staged(old_fonts, files, dests, j),
    ensures
        forall|j: int|
            0 <= j < i + 1 ==> #[trigger] path_staged(old_fonts.insert(p, font), files, dests, j),
{
    let fonts = old_fonts.insert(p, font);
    old_fonts.insert_ensures(p, font);
    assert forall|j: int| 0 <= j < i + 1 implies #[trigger] path_staged(fonts, files, dests, j) by {
        if j == i {
            assert(stands_for(fonts[p], files, dests, j));
        } else {
            assert(path_staged(old_fonts, files, dests, j));
            let q0 = choose|q: int| 0 <= q < old_fonts.len() && stands_for(old_fonts[q], files, dests, j);
            if q0 < p {
                assert(stands_for(fonts[q0], files, dests, j));
            } else {
                assert(fonts[q0 + 1] == old_fonts[q0]);
                assert(stands_for(fonts[q0 + 1], files, dests, j));
            }
        }
    }
}

proof fn lemma_insert_stands(
    old_fonts: Seq<StagedFont>,
    files: Seq<String>,
    dests: Seq<DestinationKind>,
    i: int,
    p: int,
    font: StagedFont,
)
    requires
        0 <= i,
        0 <= p <= old_fonts.len(),
        stands_for(font, files, dests, i),
        forall|q: int| 0 <= q < old_fonts.len() ==> #[trigger] font_from_path(old_fonts, files, dests, q, i),
    ensures
        forall|q: int|
            0 <= q < old_fonts.len() + 1 ==> #[trigger] font_from_path(
                old_fonts.insert(p, font),
                files,
                dests,
                q,
                i + 1,
            ),
{
    let fonts = old_fonts.insert(p, font);
    old_fonts.insert_ensures(p, font);
    assert forall|q: int| 0 <= q < old_fonts.len() + 1 implies #[trigger] font_from_path(
        fonts,
        files,
        dests,
        q,
        i + 1,
    ) by {
        if q == p {
            assert(fonts[q] == font);
            assert(stands_for(fonts[q], files, dests, i));
        } else {
            let r = if q < p {
                q
            } else {
                q - 1
            };
            assert(fonts[q] == old_fonts[r]);
            assert(font_from_path(old_fonts, files, dests, r, i));
            let j0 = choose|j: int| 0 <= j < i && stands_for(old_fonts[r], files, dests, j);
            assert(stands_for(fonts[q], files, dests, j0));
        }
    }
}

proof fn lemma_insert_distinct(
    old_fonts: Seq<StagedFont>,
    files: Seq<String>,
    dests: Seq<DestinationKind>,
    i: int,
    p: int,
    font: StagedFont,
)
    requires
        0 <= i < files.len(),
        gathered(old_fonts, files, dests, i),
        stands_for(font, files, dests, i),
        0 <= p <= old_fonts.len(),
        forall|q: int| 0 <= q < p ==> name_less((#[trigger] old_fonts[q]).file_name@, font.file_name@),
        forall|q: int|
            p <= q < old_fonts.len() ==> name_less(font.file_name@, (#[trigger] old_fonts[q]).file_name@),
    ensures
        names_distinct_before(files, i + 1),
{
    let name = font.file_name@;
    assert forall|j: int, k: int|
        0 <= j < k < i + 1 implies #[trigger] name_at(files, j) != #[trigger] name_at(files, k) by {
        if k == i {
            assert(path_staged(old_fonts, files, dests, j));
            let q0 = choose|q: int| 0 <= q < old_fonts.len() && stands_for(old_fonts[q], files, dests, j);
            lemma_name_less_asymmetric(name, name);
            if q0 < p {
                assert(name_less(old_fonts[q0].file_name@, name));
            } else {
                assert(name_less(name, old_fonts[q0].file_name@));
            }
        }
    }
    assert forall|j: int| 0 <= j < i + 1 implies (#[trigger] name_at(files, j)) is Some by {
        if j < i {
            assert(names_distinct_before(files, i));
        }
    }
}

/// Inserting the font of path `i` where the order asks for it keeps what
/// the gathered fonts keep.
proof fn lemma_insert_gathered(
    old_fonts: Seq<StagedFont>,
    files: Seq<String>,
    dests: Seq<DestinationKind>,
    i: int,
    p: int,
    font: StagedFont,
)
    requires
        0 <= i < files.len(),
        gathered(old_fonts, files, dests, i),
        stands_for(font, files, dests, i),
        0 <= p <= old_fonts.len(),
        forall|q: int| 0 <= q < p ==> name_less((#[trigger] old_fonts[q]).file_name@, font.file_name@),
        forall|q: int|
            p <= q < old_fonts.len() ==> name_less(font.file_name@, (#[trigger] old_fonts[q]).file_name@),
    ensures
        gathered(old_fonts.insert(p, font), files, dests, i + 1),
{
    old_fonts.insert_ensures(p, font);
    lemma_insert_sorted(old_fonts, p, font);
    lemma_insert_covers(old_fonts, files, dests, i, p, font);
    lemma_insert_stands(old_fonts, files, dests, i, p, font);
    lemma_insert_distinct(old_fonts, files, dests, i, p, font);
}

/// Decides, for fonts in the order of their names, which are copied and
/// where the staging stops.
fn decide_staging(fonts: Vec<StagedFont>) -> (plan: StagingPlan)
    ensures
        plan.fonts@ == fonts@,
        decisions_match(plan),
{
    let stop = first_blocked(&fonts);
    let end = match stop {
        Some(p) => p,
        None => fonts.len(),
    };
    let mut copies: Vec<usize> = Vec::new();
    let mut existing: usize = 0;
    let mut p: usize = 0;
    while p < end
        invariant
            end <= fonts@.len(),
            p <= end,
            copies@ == missing_positions(fonts@, p as int),
            copies@.len() <= p,
            existing == file_count(fonts@, p as int),
            existing <= p,
        decreases end - p,
    {
        if fonts[p].destination == DestinationKind::Missing {
            copies.push(p);
        } else if fonts[p].destination == DestinationKind::File {
            existing += 1;
        }
        p += 1;
    }
    let outcome = FontStageOutcome {
        source_file_count: fonts.len(),
        added_file_count: copies.len(),
        existing_file_count: existing,
    };
    StagingPlan { fonts, copies, outcome, failure: stop }
}

impl FontRegistrationState {
    /// Decides how the font files of the source folder are staged for the
    /// host's next launch. `font_files` are the paths of the fonts found,
    /// in the order they were collected; `destinations[i]` is what the
    /// destination holds under the file name of `font_files[i]`.
    ///
    /// Fails on the first path, in that order, that has no file name or
    /// whose file name an earlier path has too. Otherwise the plan holds
    /// every font, in the order of the file names, and the staging goes on
    /// until the first destination that is neither empty nor a file: before
    /// it, each font without a file at its destination is copied, and each
    /// with one is counted as existing.
    pub fn stage_fonts_for_next_launch(
        &mut self,
        font_files: &Vec<String>,
        destinations: &Vec<DestinationKind>,
    ) -> (result: Result<StagingPlan, String>)
        requires
            destinations@.len() == font_files@.len(),
        ensures
            match result {
                Ok(plan) => names_distinct_before(font_files@, font_files@.len() as int)
                    && plan_matches(plan, font_files@, destinations@),
                Err(message) => exists|i: int|
                    0 <= i < font_files@.len() && names_distinct_before(font_files@, i)
                        && !names_distinct_before(font_files@, i + 1) && message@
                        == #[trigger] problem_message(font_files@, i),
            },
    {
        let ghost files = font_files@;
        let ghost dests = destinations@;
        let mut fonts: Vec<StagedFont> = Vec::new();
        let mut i: usize = 0;
        while i < font_files.len()
            invariant
                files == font_files@,
                dests == destinations@,
                dests.len() == files.len(),
                i <= files.len(),
                gathered(fonts@, files, dests, i as int),
            decreases files.len() - i,
        {
            let path = &font_files[i];
            let name = match file_name_of(path.as_str()) {
                Some(n) => n,
                None => {
                    let message = no_file_name_message(path);
                    assert(message@ == problem_message(files, i as int));
                    return Err(message);
                },
            };
            match locate_name(&fonts, &name) {
                Err(p) => {
                    let message = duplicate_name_message(&name, &fonts[p].source_path, path);
                    proof {
                        lemma_duplicate_found(fonts@, files, dests, i as int, p as int, name@);
                    }
                    return Err(message);
                },
                Ok(p) => {
                    let ghost old_fonts = fonts@;
                    let font = StagedFont {
                        file_name: name,
                        source_path: path.clone(),
                        destination: destinations[i],
                    };
                    fonts.insert(p, font);
                    proof {
                        lemma_insert_gathered(old_fonts, files, dests, i as int, p as int, font);
                    }
                },
            }
            i += 1;
        }
        let ghost gathered_fonts = fonts@;
        let plan = decide_staging(fonts);
        assert forall|j: int| 0 <= j < files.len() implies #[trigger] path_staged(
            plan.fonts@,
            files,
            dests,
            j,
        ) by {
            assert(path_staged(gathered_fonts, files, dests, j));
        }
        assert forall|q: int| 0 <= q < plan.fonts@.len() implies #[trigger] font_from_path(
            plan.fonts@,
            files,
            dests,
            q,
            files.len() as int,
        ) by {
            assert(font_from_path(gathered_fonts, files, dests, q, files.len() as int));
        }
        Ok(plan)
    }
}

proof fn lemma_missing_positions(fonts: Seq<StagedFont>, m: int)
    requires
        0 <= m <= fonts.len(),
        fonts.len() <= usize::MAX,
        forall|p: int| 0 <= p < m ==> (#[trigger] fonts[p]).destination != DestinationKind::Other,
    ensures
        forall|k: int|
            0 <= k < missing_positions(fonts, m).len() ==> (#[trigger] missing_positions(fonts, m)[k])
                < m && fonts[missing_positions(fonts, m)[k] as int].destination
                == DestinationKind::Missing,
        missing_positions(fonts, m).len() + file_count(fonts, m) == m,
    decreases m,
{
    if m > 0 {
        lemma_missing_positions(fonts, m - 1);
        let before = missing_positions(fonts, m - 1);
        if fonts[m - 1].destination == DestinationKind::Missing {
            let now = missing_positions(fonts, m);
            assert(now == before.push((m - 1) as usize));
            assert forall|k: int| 0 <= k < now.len() implies (#[trigger] now[k]) < m
                && fonts[now[k] as int].destination == DestinationKind::Missing by {
                if k < before.len() {
                    assert(now[k] == before[k]);
                }
            }
        }
    }
}

/// A staging copies only fonts that have nothing at their destination, so
/// it never overwrites a file; and where it does not stop early, every
/// font is either copied or counted as existing.
pub proof fn lemma_staging_never_overwrites(plan: StagingPlan)
    requires
        decisions_match(plan),
        plan.fonts@.len() <= usize::MAX,
    ensures
        forall|k: int|
            0 <= k < plan.copies@.len() ==> (#[trigger] plan.fonts@[plan.copies@[k] as int]).destination
                == DestinationKind::Missing,
        plan.failure is None ==> plan.outcome.added_file_count + plan.outcome.existing_file_count
            == plan.outcome.source_file_count,
{
    let stop = match plan.failure {
        Some(p) => p as int,
        None => plan.fonts@.len() as int,
    };
    lemma_missing_positions(plan.fonts@, stop);
    assert forall|k: int| 0 <= k < plan.copies@.len() implies (#[trigger] plan.fonts@[plan.copies@[
        k
    ] as int]).destination == DestinationKind::Missing by {
        assert(missing_positions(plan.fonts@, stop)[k] == plan.copies@[k]);
    }
}


/// What the destinations hold once a staging that went through has made
/// its copies: a file where there was nothing, as before elsewhere.
pub open spec fn destinations_after_copies(destinations: Seq<DestinationKind>) -> Seq<DestinationKind> {
    destinations.map_values(
        |d: DestinationKind|
            if d == DestinationKind::Missing {
                DestinationKind::File
            } else {
                d
            },
    )
}

/// Staging the same fonts a second time, after a first staging went
/// through and its copies are in place, copies nothing and counts every
/// font as existing: what the first staging copied is never overwritten.
pub proof fn lemma_second_staging_copies_nothing(
    first: StagingPlan,
    second: StagingPlan,
    files: Seq<String>,
    destinations: Seq<DestinationKind>,
)
    requires
        files.len() <= usize::MAX,
        destinations.len() == files.len(),
        plan_matches(first, files, destinations),
        first.failure is None,
        plan_matches(second, files, destinations_after_copies(destinations)),
    ensures
        second.failure is None,
        second.copies@.len() == 0,
        second.outcome == (FontStageOutcome {
            source_file_count: files.len() as usize,
            added_file_count: 0,
            existing_file_count: files.len() as usize,
        }),
{
    let after = destinations_after_copies(destinations);
    let n = files.len() as int;
    assert forall|j: int| 0 <= j < n implies destinations[j] != DestinationKind::Other by {
        assert(path_staged(first.fonts@, files, destinations, j));
        let p = choose|p: int|
            0 <= p < first.fonts@.len() && #[trigger] stands_for(first.fonts@[p], files, destinations, j);
        assert(first.fonts@[p].destination != DestinationKind::Other);
    }
    let fonts = second.fonts@;
    assert forall|q: int| 0 <= q < n implies (#[trigger] fonts[q]).destination == DestinationKind::File by {
        assert(font_from_path(fonts, files, after, q, n));
        let j = choose|j: int| 0 <= j < n && #[trigger] stands_for(fonts[q], files, after, j);
        assert(destinations[j] != DestinationKind::Other);
    }
    if second.failure is Some {
        let p = second.failure->0 as int;
        assert(fonts[p].destination == DestinationKind::File);
    }
    lemma_missing_positions(fonts, n);
    if missing_positions(fonts, n).len() > 0 {
        let k = missing_positions(fonts, n)[0] as int;
        assert(fonts[k].destination == DestinationKind::Missing);
    }
}

} // verus!
