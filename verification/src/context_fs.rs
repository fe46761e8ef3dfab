//! Contexts from files: rules, skills and a window of the transcript.

use vstd::prelude::*;
use vstd::string::*;

use crate::datum::{
    lemma_views_concat, lemma_views_push, list_view, opt_view, snapshot_all, views, Datum,
};
use crate::context::{
    add_segment_sizes, compiled_view, context_error_text, segment_texts, within_limit,
    CompiledContext, CompiledContextView, ContextError, ContextErrorView, DirectoryRuleLoader,
    PromptLayer, PromptSegment, PromptSegmentView,
};
use crate::keyed::{ascending, key_list, keyed_view, snapshot_keyed, Keyed};
use crate::protocol::{TranscriptMessage, TranscriptMessageView};
use crate::text::{
    capped, chars_of, decimal_of, decimal_usize, join, join_of, lines, lines_of, rsplit, rsplit_of,
    same_text, slice_text, strip_prefix, total_size, trim, trim_of, without_prefix,
};

verus! {

/// A skill that was found.
#[derive(Debug, PartialEq, Eq)]
pub struct SkillInfo {
    pub name: String,
    pub summary: String,
    pub path: String,
}

/// The model of [`SkillInfo`].
#[verifier::ext_equal]
pub ghost struct SkillInfoView {
    pub name: Seq<char>,
    pub summary: Seq<char>,
    pub path: Seq<char>,
}

impl View for SkillInfo {
    type V = SkillInfoView;

    open spec fn view(&self) -> SkillInfoView {
        SkillInfoView {
            name: self.name@,
            summary: self.summary@,
            path: self.path@,
        }
    }
}

impl Datum for SkillInfo {
    fn snapshot(&self) -> (copy: Self) {
        SkillInfo {
            name: self.name.snapshot(),
            summary: self.summary.snapshot(),
            path: self.path.snapshot(),
        }
    }

    fn same(&self, other: &Self) -> (equal: bool) {
        self.name.same(&other.name) && self.summary.same(&other.summary)
            && self.path.same(&other.path)
    }
}

impl Clone for SkillInfo {
    fn clone(&self) -> (copy: Self)
        ensures
            copy@ == self@,
    {
        self.snapshot()
    }
}

/// Why no context could be made of files.
#[derive(Debug, PartialEq, Eq)]
pub enum FsContextError {
    Io(String),
    UnknownSkill(String),
}

/// The model of [`FsContextError`].
#[verifier::ext_equal]
pub ghost enum FsContextErrorView {
    Io(Seq<char>),
    UnknownSkill(Seq<char>),
}

impl View for FsContextError {
    type V = FsContextErrorView;

    open spec fn view(&self) -> FsContextErrorView {
        match *self {
            FsContextError::Io(x0) => FsContextErrorView::Io(x0@),
            FsContextError::UnknownSkill(x0) => FsContextErrorView::UnknownSkill(x0@),
        }
    }
}

impl Datum for FsContextError {
    fn snapshot(&self) -> (copy: Self) {
        match self {
            FsContextError::Io(x0) => FsContextError::Io(x0.snapshot()),
            FsContextError::UnknownSkill(x0) => FsContextError::UnknownSkill(x0.snapshot()),
        }
    }

    fn same(&self, other: &Self) -> (equal: bool) {
        match (self, other) {
            (FsContextError::Io(x0), FsContextError::Io(y0)) => x0.same(y0),
            (FsContextError::UnknownSkill(x0), FsContextError::UnknownSkill(y0)) => x0.same(y0),
            _ => false,
        }
    }
}

impl Clone for FsContextError {
    fn clone(&self) -> (copy: Self)
        ensures
            copy@ == self@,
    {
        self.snapshot()
    }
}

/// The message of a failure.
pub open spec fn fs_error_text(error: FsContextErrorView) -> Seq<char> {
    match error {
        FsContextErrorView::Io(detail) => "filesystem context I/O error: "@ + detail,
        FsContextErrorView::UnknownSkill(name) => "selected skill `"@ + name + "` was not found"@,
    }
}

impl FsContextError {
    pub fn to_text(&self) -> (text: String)
        ensures
            text@ == fs_error_text(self@),
    {
        match self {
            FsContextError::Io(detail) => {
                "filesystem context I/O error: ".to_owned().concat(detail.as_str())
            },
            FsContextError::UnknownSkill(name) => {
                "selected skill `".to_owned().concat(name.as_str()).concat("` was not found")
            },
        }
    }
}

// ---------------------------------------------------------------------------
// Reading skill files
// ---------------------------------------------------------------------------

/// A quotation mark.
pub open spec fn quote_mark(c: char) -> bool {
    c == '\'' || c == '"'
}

/// A text without leading quotation marks.
pub open spec fn unquote_start(text: Seq<char>) -> Seq<char>
    decreases text.len(),
{
    if text.len() > 0 && quote_mark(text[0]) {
        unquote_start(text.skip(1))
    } else {
        text
    }
}

/// A text without trailing quotation marks.
pub open spec fn unquote_end(text: Seq<char>) -> Seq<char>
    decreases text.len(),
{
    if text.len() > 0 && quote_mark(text.last()) {
        unquote_end(text.drop_last())
    } else {
        text
    }
}

fn unquote(text: &str) -> (bare: String)
    ensures
        bare@ == unquote_end(unquote_start(text@)),
{
    let chars = chars_of(text);
    let mut from: usize = 0;
    assert(chars@.skip(0) =~= chars@);
    while from < chars.len() && (chars[from] == '\'' || chars[from] == '"')
        invariant
            from <= chars@.len(),
            unquote_start(chars@) == unquote_start(chars@.skip(from as int)),
        decreases chars@.len() - from,
    {
        proof {
            assert(chars@.skip(from as int)[0] == chars@[from as int]);
            assert(chars@.skip(from as int).skip(1) =~= chars@.skip(from as int + 1));
        }
        from = from + 1;
    }
    proof {
        if from < chars@.len() {
            assert(chars@.skip(from as int)[0] == chars@[from as int]);
        }
        assert(chars@.skip(from as int) =~= chars@.subrange(from as int, chars@.len() as int));
    }
    let mut to: usize = chars.len();
    while from < to && (chars[to - 1] == '\'' || chars[to - 1] == '"')
        invariant
            from <= to <= chars@.len(),
            unquote_end(unquote_start(chars@)) == unquote_end(
                chars@.subrange(from as int, to as int),
            ),
        decreases to,
    {
        proof {
            assert(chars@.subrange(from as int, to as int).last() == chars@[to - 1]);
            assert(chars@.subrange(from as int, to as int).drop_last() =~= chars@.subrange(
                from as int,
                to - 1,
            ));
        }
        to = to - 1;
    }
    proof {
        if from < to {
            assert(chars@.subrange(from as int, to as int).last() == chars@[to - 1]);
        }
    }
    slice_text(&chars, from, to)
}

/// Whether a line is the fence around front matter.
pub open spec fn fence(line: Seq<char>) -> bool {
    trim_of(line) == "---"@
}

/// The value of a key in lines of front matter, from line `at` up to the closing fence.
pub open spec fn value_in(lines: Seq<Seq<char>>, at: int, key: Seq<char>) -> Option<Seq<char>>
    decreases lines.len() - at,
{
    if at < 0 || at >= lines.len() || fence(lines[at]) {
        None
    } else {
        match without_prefix(trim_of(lines[at]), key + ":"@) {
            Some(value) => Some(unquote_end(unquote_start(trim_of(value)))),
            None => value_in(lines, at + 1, key),
        }
    }
}

/// The value of a key in the front matter of a text, without quotation marks around it.
pub open spec fn frontmatter_of(text: Seq<char>, key: Seq<char>) -> Option<Seq<char>> {
    let lines = lines_of(text);
    if lines.len() == 0 || !fence(lines[0]) {
        None
    } else {
        value_in(lines, 1, key)
    }
}

fn is_fence(line: &str) -> (yes: bool)
    ensures
        yes == fence(line@),
{
    same_text(trim(line).as_str(), "---")
}

/// The value of a key in the front matter of a text.
pub fn frontmatter_value(text: &str, key: &str) -> (value: Option<String>)
    ensures
        opt_view(value) == frontmatter_of(text@, key@),
{
    let all = lines(text);
    let ghost wanted = lines_of(text@);
    assert(wanted.len() == all@.len());
    if all.len() == 0 {
        return None;
    }
    assert(wanted[0] == all@[0]@);
    if !is_fence(all[0].as_str()) {
        return None;
    }
    let prefix = key.to_owned().concat(":");
    let mut at: usize = 1;
    while at < all.len()
        invariant
            1 <= at <= all@.len(),
            wanted == views(all@),
            wanted.len() == all@.len(),
            prefix@ == key@ + ":"@,
            frontmatter_of(text@, key@) == value_in(wanted, at as int, key@),
        decreases all@.len() - at,
    {
        assert(wanted[at as int] == all@[at as int]@);
        if is_fence(all[at].as_str()) {
            return None;
        }
        let line = trim(all[at].as_str());
        match strip_prefix(line.as_str(), prefix.as_str()) {
            Some(value) => {
                return Some(unquote(trim(value.as_str()).as_str()));
            },
            None => {},
        }
        at = at + 1;
    }
    None
}

/// The line behind the closing fence, from line `at` on, or the end.
pub open spec fn behind_fence(lines: Seq<Seq<char>>, at: int) -> int
    decreases lines.len() - at,
{
    if at < 0 || at >= lines.len() {
        lines.len() as int
    } else if fence(lines[at]) {
        at + 1
    } else {
        behind_fence(lines, at + 1)
    }
}

/// The first line from `at` on that is neither blank nor a heading, trimmed.
pub open spec fn prose_from(lines: Seq<Seq<char>>, at: int) -> Option<Seq<char>>
    decreases lines.len() - at,
{
    if at < 0 || at >= lines.len() {
        None
    } else {
        let line = trim_of(lines[at]);
        if line.len() > 0 && line[0] != '#' {
            Some(line)
        } else {
            prose_from(lines, at + 1)
        }
    }
}

/// The first line of prose behind the front matter.
pub open spec fn first_prose_of(text: Seq<char>) -> Option<Seq<char>> {
    let lines = lines_of(text);
    let start = if lines.len() > 0 && fence(lines[0]) {
        behind_fence(lines, 1)
    } else {
        0
    };
    prose_from(lines, start)
}

/// The first line of prose behind the front matter.
pub fn first_prose_line(text: &str) -> (line: Option<String>)
    ensures
        opt_view(line) == first_prose_of(text@),
{
    let all = lines(text);
    let ghost wanted = lines_of(text@);
    assert(wanted.len() == all@.len());
    let mut at: usize = 0;
    if all.len() > 0 {
        assert(wanted[0] == all@[0]@);
        if is_fence(all[0].as_str()) {
            at = 1;
            let mut open: bool = true;
            while open && at < all.len()
                invariant
                    1 <= at <= all@.len(),
                    wanted == views(all@),
                    wanted.len() == all@.len(),
                    open ==> behind_fence(wanted, 1) == behind_fence(wanted, at as int),
                    !open ==> behind_fence(wanted, 1) == at,
                decreases all@.len() - at,
            {
                assert(wanted[at as int] == all@[at as int]@);
                if is_fence(all[at].as_str()) {
                    open = false;
                }
                at = at + 1;
            }
        }
    }
    let ghost start = at as int;
    assert(first_prose_of(text@) == prose_from(wanted, start));
    while at < all.len()
        invariant
            at <= all@.len(),
            wanted == views(all@),
            wanted.len() == all@.len(),
            first_prose_of(text@) == prose_from(wanted, at as int),
        decreases all@.len() - at,
    {
        assert(wanted[at as int] == all@[at as int]@);
        let line = trim(all[at].as_str());
        let chars = chars_of(line.as_str());
        if chars.len() > 0 && chars[0] != '#' {
            return Some(line);
        }
        at = at + 1;
    }
    None
}

/// What a skill file says of itself. `fallback` names it if it does not.
pub open spec fn skill_of(text: Seq<char>, fallback: Seq<char>, path: Seq<char>) -> SkillInfoView {
    SkillInfoView {
        name: match frontmatter_of(text, "name"@) {
            Some(name) => name,
            None => fallback,
        },
        summary: match frontmatter_of(text, "description"@) {
            Some(description) => description,
            None => match first_prose_of(text) {
                Some(line) => line,
                None => "No description provided"@,
            },
        },
        path,
    }
}

/// Reads a skill file.
pub fn read_skill(text: &str, fallback: &str, path: String) -> (skill: SkillInfo)
    ensures
        skill@ == skill_of(text@, fallback@, path@),
{
    let name = match frontmatter_value(text, "name") {
        Some(name) => name,
        None => fallback.to_owned(),
    };
    let summary = match frontmatter_value(text, "description") {
        Some(description) => description,
        None => match first_prose_line(text) {
            Some(line) => line,
            None => "No description provided".to_owned(),
        },
    };
    SkillInfo { name, summary, path }
}

/// The last part of a path. A part that is no text is shown as well as it can be.
#[derive(Debug, PartialEq, Eq)]
pub struct PathPart {
    pub shown: String,
    pub readable: bool,
}

/// The model of [`PathPart`].
#[verifier::ext_equal]
pub ghost struct PathPartView {
    pub shown: Seq<char>,
    pub readable: bool,
}

impl View for PathPart {
    type V = PathPartView;

    open spec fn view(&self) -> PathPartView {
        PathPartView { shown: self.shown@, readable: self.readable }
    }
}

/// Where the file of a skill lies, and the name that it has if it does not name itself.
#[derive(Debug, PartialEq, Eq)]
pub struct SkillPlace {
    /// The file inside the entry, or the entry itself.
    pub inside: Option<String>,
    pub fallback: String,
}

/// The model of [`SkillPlace`].
#[verifier::ext_equal]
pub ghost struct SkillPlaceView {
    pub inside: Option<Seq<char>>,
    pub fallback: Seq<char>,
}

impl View for SkillPlace {
    type V = SkillPlaceView;

    open spec fn view(&self) -> SkillPlaceView {
        SkillPlaceView { inside: opt_view(self.inside), fallback: self.fallback@ }
    }
}

/// The name in front of the extension `md`, if a file has that extension.
pub open spec fn markdown_stem(name: Seq<char>) -> Option<Seq<char>> {
    match rsplit_of(name, "."@) {
        Some((stem, extension)) => if stem.len() > 0 && extension == "md"@ {
            Some(stem)
        } else {
            None
        },
        None => None,
    }
}

/// A text if the part that it comes from is readable.
pub open spec fn name_or_skill(name: Seq<char>, readable: bool) -> Seq<char> {
    if readable {
        name
    } else {
        "skill"@
    }
}

/// Where the skill of an entry lies, if the entry is one: a directory holds it in
/// `SKILL.md`, and a Markdown file is one itself. The fallback is the name of the directory
/// that the file lies in, or where that has none the file's own without its extension.
pub open spec fn skill_place_of(
    root: Option<PathPartView>,
    entry: PathPartView,
    is_directory: bool,
) -> Option<SkillPlaceView> {
    if is_directory {
        Some(
            SkillPlaceView {
                inside: Some("SKILL.md"@),
                fallback: name_or_skill(entry.shown, entry.readable),
            },
        )
    } else {
        match markdown_stem(entry.shown) {
            None => None,
            Some(stem) => Some(
                SkillPlaceView {
                    inside: None,
                    fallback: match root {
                        Some(root) => name_or_skill(root.shown, root.readable),
                        None => name_or_skill(stem, entry.readable),
                    },
                },
            ),
        }
    }
}

/// Where the skill of an entry of a skill root lies, if the entry is one.
pub fn skill_place(root: &Option<PathPart>, entry: &PathPart, is_directory: bool) -> (place: Option<
    SkillPlace,
>)
    ensures
        opt_view(place) == skill_place_of(opt_view(*root), entry@, is_directory),
{
    let unnamed = "skill".to_owned();
    if is_directory {
        return Some(
            SkillPlace {
                inside: Some("SKILL.md".to_owned()),
                fallback: if entry.readable {
                    entry.shown.clone()
                } else {
                    unnamed
                },
            },
        );
    }
    let (stem, extension) = match rsplit(entry.shown.as_str(), ".") {
        Some(parts) => parts,
        None => {
            return None;
        },
    };
    if chars_of(stem.as_str()).len() == 0 || !same_text(extension.as_str(), "md") {
        return None;
    }
    let fallback = match root {
        Some(root) => if root.readable {
            root.shown.clone()
        } else {
            unnamed
        },
        None => if entry.readable {
            stem
        } else {
            unnamed
        },
    };
    Some(SkillPlace { inside: None, fallback })
}

/// The names of skills.
pub open spec fn skill_names(skills: Seq<SkillInfoView>) -> Seq<Seq<char>> {
    skills.map_values(|skill: SkillInfoView| skill.name)
}

/// Whether a skill is the first one of its name.
pub open spec fn first_of_name(skills: Seq<SkillInfoView>, skill: SkillInfoView) -> bool {
    exists|i: int|
        0 <= i < skills.len() && #[trigger] skills[i] == skill && forall|j: int|
            0 <= j < i ==> (#[trigger] skills[j]).name != skill.name
}

/// Whether a catalog lists, in ascending order of their names, the first skill of every
/// name that was found.
pub open spec fn catalogs(catalog: Seq<SkillInfoView>, skills: Seq<SkillInfoView>) -> bool {
    &&& ascending(skill_names(catalog))
    &&& forall|i: int|
        0 <= i < catalog.len() ==> first_of_name(skills, #[trigger] catalog[i])
    &&& forall|i: int|
        0 <= i < skills.len() ==> skill_names(catalog).contains((#[trigger] skills[i]).name)
}

/// Where skills are looked for.
#[derive(Debug)]
pub struct SkillCatalog {
    roots: Vec<String>,
}

impl Clone for SkillCatalog {
    fn clone(&self) -> (copy: Self)
        ensures
            copy.places() == self.places(),
    {
        SkillCatalog { roots: snapshot_all(&self.roots) }
    }
}

impl SkillCatalog {
    /// The directories that are looked through, in their order.
    pub closed spec fn places(&self) -> Seq<Seq<char>> {
        views(self.roots@)
    }

    pub fn new(roots: Vec<String>) -> (catalog: Self)
        ensures
            catalog.places() == views(roots@),
    {
        SkillCatalog { roots }
    }

    /// The directories that are looked through, in their order.
    pub fn roots(&self) -> (roots: &Vec<String>)
        ensures
            views(roots@) == self.places(),
    {
        &self.roots
    }

    /// The catalog of the skills that were found there: ordered by name, the first one of
    /// each name.
    pub fn scan(&self, skills: Vec<SkillInfo>) -> (catalog: Vec<SkillInfo>)
        ensures
            catalogs(views(catalog@), views(skills@)),
    {
        let ghost all = views(skills@);
        let mut firsts: Keyed<SkillInfo> = Keyed::new();
        let mut index: usize = 0;
        while index < skills.len()
            invariant
                index <= skills@.len(),
                all == views(skills@),
                forall|name: Seq<char>| #[trigger]
                    firsts@.contains_key(name) ==> firsts@[name]@.name == name && first_of_name(
                        all,
                        firsts@[name]@,
                    ),
                forall|i: int| 0 <= i < index ==> firsts@.contains_key((#[trigger] all[i]).name),
                forall|name: Seq<char>| #[trigger]
                    firsts@.contains_key(name) ==> exists|i: int|
                        0 <= i < index && (#[trigger] all[i]).name == name,
            decreases skills@.len() - index,
        {
            let ghost before = firsts@;
            assert(all[index as int] == skills@[index as int]@);
            if !firsts.contains(skills[index].name.as_str()) {
                let skill = skills[index].clone();
                proof {
                    assert forall|j: int| 0 <= j < index implies (#[trigger] all[j]).name
                        != skill@.name by {
                        assert(before.contains_key(all[j].name));
                    }
                    assert(all[index as int] == skill@);
                    assert(first_of_name(all, skill@));
                }
                let _ = firsts.insert(skills[index].name.clone(), skill);
            }
            proof {
                assert forall|name: Seq<char>| #[trigger] firsts@.contains_key(name) implies exists|
                    i: int,
                | 0 <= i < index + 1 && (#[trigger] all[i]).name == name by {
                    if before.contains_key(name) {
                        let i = choose|i: int| 0 <= i < index && (#[trigger] all[i]).name == name;
                        assert(all[i].name == name);
                    } else {
                        assert(all[index as int].name == name);
                    }
                }
            }
            index = index + 1;
        }
        let count: usize = firsts.len();
        let ghost keys = firsts.keys();
        let mut catalog: Vec<SkillInfo> = Vec::new();
        let mut at: usize = 0;
        while at < count
            invariant
                at <= count,
                count == keys.len(),
                keys == firsts.keys(),
                catalog@.len() == at,
                forall|name: Seq<char>| #[trigger]
                    firsts@.contains_key(name) ==> firsts@[name]@.name == name && first_of_name(
                        all,
                        firsts@[name]@,
                    ),
                forall|i: int|
                    0 <= i < at ==> (#[trigger] views(catalog@)[i]).name == keys[i] && first_of_name(
                        all,
                        views(catalog@)[i],
                    ),
            decreases count - at,
        {
            let ghost before = catalog@;
            let skill = firsts.value_at(at).clone();
            proof {
                lemma_views_push(before, skill);
                assert(firsts@.contains_key(keys[at as int]));
            }
            catalog.push(skill);
            proof {
                assert forall|i: int| 0 <= i < at + 1 implies (
                #[trigger] views(catalog@)[i]).name == keys[i] && first_of_name(
                    all,
                    views(catalog@)[i],
                ) by {
                    if i < at {
                        assert(views(catalog@)[i] == views(before)[i]);
                    }
                }
            }
            at = at + 1;
        }
        proof {
            let found = views(catalog@);
            assert(skill_names(found) =~= keys) by {
                assert forall|i: int| 0 <= i < keys.len() implies skill_names(found)[i] == keys[i] by {
                    assert(found[i].name == keys[i]);
                }
            }
            assert forall|i: int| 0 <= i < all.len() implies skill_names(found).contains(
                (#[trigger] all[i]).name,
            ) by {
                assert(firsts@.dom().contains(all[i].name));
                assert(keys.to_set().contains(all[i].name));
            }
        }
        catalog
    }
}

// ---------------------------------------------------------------------------
// Compaction
// ---------------------------------------------------------------------------

/// The number of receipts that belong to a message.
pub open spec fn expected_receipts(message: TranscriptMessageView) -> nat {
    match message {
        TranscriptMessageView::Assistant { tool_calls, .. } => tool_calls.len(),
        _ => 0,
    }
}

/// The number of receipts that stand in a row from `at` on, up to `most`.
pub open spec fn receipts_from(messages: Seq<TranscriptMessageView>, at: int, most: nat) -> nat
    decreases most,
{
    if most == 0 || at < 0 || at >= messages.len() || !(messages[at] is Tool) {
        0
    } else {
        1 + receipts_from(messages, at + 1, (most - 1) as nat)
    }
}

/// The size of the group that begins at `at`: a message with the receipts that belong to
/// it.
pub open spec fn group_size(messages: Seq<TranscriptMessageView>, at: int) -> nat {
    1 + receipts_from(messages, at + 1, expected_receipts(messages[at]))
}

/// Where the groups of a transcript begin, from `at` on, and where the last one ends.
pub open spec fn group_bounds(messages: Seq<TranscriptMessageView>, at: int) -> Seq<int>
    decreases messages.len() - at,
{
    if at < 0 || at >= messages.len() {
        seq![at]
    } else {
        proof {
            lemma_receipts_from(messages, at + 1, expected_receipts(messages[at]));
        }
        seq![at] + group_bounds(messages, at + group_size(messages, at))
    }
}

/// The number of groups that are left out of a transcript.
pub open spec fn omitted_groups(messages: Seq<TranscriptMessageView>, maximum: nat) -> nat {
    let groups = group_bounds(messages, 0).len() - 1;
    if groups > maximum {
        (groups - maximum) as nat
    } else {
        0
    }
}

/// What is kept of a transcript: its last groups, at most `maximum` of them.
pub open spec fn compacted(messages: Seq<TranscriptMessageView>, maximum: nat) -> Seq<
    TranscriptMessageView,
> {
    messages.skip(group_bounds(messages, 0)[omitted_groups(messages, maximum) as int])
}

pub proof fn lemma_receipts_from(messages: Seq<TranscriptMessageView>, at: int, most: nat)
    requires
        0 <= at <= messages.len(),
    ensures
        receipts_from(messages, at, most) <= most,
        at + receipts_from(messages, at, most) <= messages.len(),
    decreases most,
{
    if most > 0 && at < messages.len() && messages[at] is Tool {
        lemma_receipts_from(messages, at + 1, (most - 1) as nat);
    }
}

proof fn lemma_bounds(messages: Seq<TranscriptMessageView>, at: int)
    requires
        0 <= at <= messages.len(),
    ensures
        group_bounds(messages, at).len() >= 1,
        group_bounds(messages, at)[0] == at,
        group_bounds(messages, at).last() == messages.len(),
        forall|i: int|
            0 <= i < group_bounds(messages, at).len() ==> at <= #[trigger] group_bounds(
                messages,
                at,
            )[i] <= messages.len(),
    decreases messages.len() - at,
{
    if at < messages.len() {
        let size = group_size(messages, at);
        lemma_receipts_from(messages, at + 1, expected_receipts(messages[at]));
        lemma_bounds(messages, at + size as int);
        let rest = group_bounds(messages, at + size as int);
        let all = group_bounds(messages, at);
        assert(all =~= seq![at] + rest);
        assert forall|i: int| 0 <= i < all.len() implies at <= #[trigger] all[i] <= messages.len() by {
            if i > 0 {
                assert(all[i] == rest[i - 1]);
            }
        }
    }
}

fn count_receipts(messages: &Vec<TranscriptMessage>, from: usize, most: usize) -> (count: usize)
    requires
        from <= messages@.len(),
    ensures
        count as nat == receipts_from(views(messages@), from as int, most as nat),
{
    let ghost all = views(messages@);
    assert(all.len() == messages@.len());
    let mut count: usize = 0;
    while count < most && from + count < messages.len() && matches!(
        messages[from + count],
        TranscriptMessage::Tool { .. }
    )
        invariant
            count <= most,
            from + count <= messages.len(),
            all == views(messages@),
            all.len() == messages@.len(),
            receipts_from(all, from as int, most as nat) == count + receipts_from(
                all,
                from + count,
                (most - count) as nat,
            ),
        decreases most - count,
    {
        assert(all[from + count] == messages@[from + count]@);
        count = count + 1;
    }
    proof {
        if from + count < messages@.len() {
            assert(all[from + count] == messages@[from + count]@);
        }
    }
    count
}

/// Keeps the last complete groups of a transcript. A tool-call assistant message and its
/// receipts form one indivisible group. Returns the kept messages and the number of
/// groups that were left out.
pub fn compact_transcript(messages: Vec<TranscriptMessage>, maximum_groups: usize) -> (kept: (
    Vec<TranscriptMessage>,
    usize,
))
    ensures
        views(kept.0@) == compacted(views(messages@), maximum_groups as nat),
        kept.1 as nat == omitted_groups(views(messages@), maximum_groups as nat),
{
    let ghost all = views(messages@);
    let ghost bounds = group_bounds(all, 0);
    assert(all.len() == messages@.len());
    let mut starts: Vec<usize> = Vec::new();
    let mut at: usize = 0;
    assert(bounds =~= Seq::<int>::empty() + group_bounds(all, 0));
    while at < messages.len()
        invariant
            at <= messages@.len(),
            all == views(messages@),
            all.len() == messages@.len(),
            starts@.len() <= at,
            bounds == as_ints(starts@) + group_bounds(all, at as int),
        decreases messages@.len() - at,
    {
        assert(all[at as int] == messages@[at as int]@);
        let expected: usize = match &messages[at] {
            TranscriptMessage::Assistant { tool_calls, .. } => {
                assert(views(tool_calls@).len() == tool_calls@.len());
                tool_calls.len()
            },
            _ => 0,
        };
        let receipts: usize = count_receipts(&messages, at + 1, expected);
        proof {
            lemma_receipts_from(all, at + 1, expected as nat);
            assert(as_ints(starts@.push(at)) =~= as_ints(starts@).push(at as int));
            assert(as_ints(starts@) + group_bounds(all, at as int) =~= as_ints(starts@).push(
                at as int,
            ) + group_bounds(all, at + 1 + receipts));
        }
        starts.push(at);
        at = at + 1 + receipts;
    }
    proof {
        assert(group_bounds(all, at as int) =~= seq![at as int]);
        assert(bounds.len() == starts@.len() + 1);
        lemma_bounds(all, 0);
    }
    let omitted: usize = if starts.len() > maximum_groups {
        starts.len() - maximum_groups
    } else {
        0
    };
    let cut: usize = if omitted < starts.len() {
        starts[omitted]
    } else {
        messages.len()
    };
    proof {
        if omitted < starts@.len() {
            assert(bounds[omitted as int] == starts@[omitted as int]);
        } else {
            assert(bounds[omitted as int] == at);
        }
        assert(bounds[omitted as int] == cut);
    }
    let mut rest = messages;
    let kept = rest.split_off(cut);
    assert(views(kept@) =~= all.skip(cut as int));
    (kept, omitted)
}

spec fn as_ints(numbers: Seq<usize>) -> Seq<int> {
    numbers.map_values(|number: usize| number as int)
}

/// Compaction leaves out whole groups from the front and nothing else: the kept messages
/// are a suffix of the transcript that begins where a group begins, at most as many
/// groups as allowed, and all of them if there are not more.
pub proof fn law_compaction_cuts_between_groups(
    messages: Seq<TranscriptMessageView>,
    maximum: nat,
)
    ensures
        ({
            let bounds = group_bounds(messages, 0);
            let omitted = omitted_groups(messages, maximum);
            &&& omitted < bounds.len()
            &&& 0 <= bounds[omitted as int] <= messages.len()
            &&& messages.take(bounds[omitted as int]) + compacted(messages, maximum) == messages
            &&& bounds.len() - 1 - omitted <= maximum
            &&& bounds.len() - 1 <= maximum ==> compacted(messages, maximum) == messages
        }),
{
    lemma_bounds(messages, 0);
    let cut = group_bounds(messages, 0)[omitted_groups(messages, maximum) as int];
    assert(messages.take(cut) + messages.skip(cut) =~= messages);
    assert(messages.skip(0) =~= messages);
}

/// Whether every assistant message is followed by exactly the receipts of its calls, and
/// no receipt stands anywhere else, from `at` on.
pub open spec fn closed_from(messages: Seq<TranscriptMessageView>, at: int) -> bool
    decreases messages.len() - at,
{
    if at < 0 || at >= messages.len() {
        true
    } else {
        proof {
            lemma_receipts_from(messages, at + 1, expected_receipts(messages[at]));
        }
        &&& !(messages[at] is Tool)
        &&& group_size(messages, at) == 1 + expected_receipts(messages[at])
        &&& closed_from(messages, at + group_size(messages, at))
    }
}

proof fn lemma_closed_at_bound(messages: Seq<TranscriptMessageView>, at: int, index: int)
    requires
        0 <= at <= messages.len(),
        closed_from(messages, at),
        0 <= index < group_bounds(messages, at).len(),
    ensures
        closed_from(messages, group_bounds(messages, at)[index]),
    decreases messages.len() - at,
{
    if at < messages.len() && index > 0 {
        lemma_receipts_from(messages, at + 1, expected_receipts(messages[at]));
        let next = at + group_size(messages, at);
        lemma_closed_at_bound(messages, next, index - 1);
        assert(group_bounds(messages, at)[index] == group_bounds(messages, next)[index - 1]);
    } else if index > 0 {
        assert(group_bounds(messages, at) =~= seq![at]);
    }
}

proof fn lemma_closed_suffix(messages: Seq<TranscriptMessageView>, cut: int, at: int)
    requires
        0 <= cut <= at <= messages.len(),
        closed_from(messages, at),
    ensures
        closed_from(messages.skip(cut), at - cut),
    decreases messages.len() - at,
{
    let rest = messages.skip(cut);
    if at < messages.len() {
        assert(rest[at - cut] == messages[at]);
        lemma_receipts_from(messages, at + 1, expected_receipts(messages[at]));
        lemma_receipts_shift(messages, cut, at + 1, expected_receipts(messages[at]));
        lemma_closed_suffix(messages, cut, at + group_size(messages, at));
    }
}

proof fn lemma_receipts_shift(
    messages: Seq<TranscriptMessageView>,
    cut: int,
    at: int,
    most: nat,
)
    requires
        0 <= cut <= at <= messages.len(),
    ensures
        receipts_from(messages.skip(cut), at - cut, most) == receipts_from(messages, at, most),
    decreases most,
{
    if most > 0 && at < messages.len() && messages[at] is Tool {
        assert(messages.skip(cut)[at - cut] == messages[at]);
        lemma_receipts_shift(messages, cut, at + 1, (most - 1) as nat);
    } else if at < messages.len() {
        assert(messages.skip(cut)[at - cut] == messages[at]);
    }
}

/// Compaction never parts a call from its receipt: if in a transcript every call is
/// followed by its receipt and no receipt stands alone, so it is in what is kept.
pub proof fn law_compaction_keeps_receipts_with_calls(
    messages: Seq<TranscriptMessageView>,
    maximum: nat,
)
    requires
        closed_from(messages, 0),
    ensures
        closed_from(compacted(messages, maximum), 0),
{
    lemma_bounds(messages, 0);
    let omitted = omitted_groups(messages, maximum) as int;
    let cut = group_bounds(messages, 0)[omitted];
    lemma_closed_at_bound(messages, 0, omitted);
    lemma_closed_suffix(messages, cut, cut);
}

// ---------------------------------------------------------------------------
// The compiler
// ---------------------------------------------------------------------------

/// What a file-backed context is made of.
#[derive(Debug)]
pub struct FsContextConfig {
    pub project_root: String,
    pub current_directory: String,
    pub skill_roots: Vec<String>,
    pub selected_skills: Keyed<bool>,
    pub stable_segments: Vec<PromptSegment>,
    pub volatile_segments: Vec<PromptSegment>,
    /// Number of complete transcript groups retained. A tool-call assistant
    /// message and its receipts form one indivisible group.
    pub max_transcript_groups: Option<usize>,
    pub max_characters: Option<usize>,
}

/// Whether two configurations say the same.
pub open spec fn same_config(left: FsContextConfig, right: FsContextConfig) -> bool {
    &&& left.project_root@ == right.project_root@
    &&& left.current_directory@ == right.current_directory@
    &&& views(left.skill_roots@) == views(right.skill_roots@)
    &&& left.selected_skills@ == right.selected_skills@
    &&& left.selected_skills.keys() == right.selected_skills.keys()
    &&& views(left.stable_segments@) == views(right.stable_segments@)
    &&& views(left.volatile_segments@) == views(right.volatile_segments@)
    &&& left.max_transcript_groups == right.max_transcript_groups
    &&& left.max_characters == right.max_characters
}

impl Clone for FsContextConfig {
    fn clone(&self) -> (copy: Self)
        ensures
            same_config(copy, *self),
    {
        let selected_skills = snapshot_keyed(&self.selected_skills);
        proof {
            assert(keyed_view(selected_skills@) =~= selected_skills@);
            assert(keyed_view(self.selected_skills@) =~= self.selected_skills@);
        }
        FsContextConfig {
            project_root: self.project_root.clone(),
            current_directory: self.current_directory.clone(),
            skill_roots: snapshot_all(&self.skill_roots),
            selected_skills,
            stable_segments: snapshot_all(&self.stable_segments),
            volatile_segments: snapshot_all(&self.volatile_segments),
            max_transcript_groups: self.max_transcript_groups,
            max_characters: self.max_characters,
        }
    }
}

impl FsContextConfig {
    pub fn new(project_root: String, current_directory: String) -> (config: Self)
        ensures
            config.project_root@ == project_root@,
            config.current_directory@ == current_directory@,
            config.skill_roots@.len() == 0,
            config.selected_skills@ == Map::<Seq<char>, bool>::empty(),
            config.stable_segments@.len() == 0,
            config.volatile_segments@.len() == 0,
            config.max_transcript_groups is None,
            config.max_characters is None,
    {
        FsContextConfig {
            project_root,
            current_directory,
            skill_roots: Vec::new(),
            selected_skills: Keyed::new(),
            stable_segments: Vec::new(),
            volatile_segments: Vec::new(),
            max_transcript_groups: None,
            max_characters: None,
        }
    }
}

/// One line of the skill index.
pub open spec fn index_line(skill: SkillInfoView) -> Seq<char> {
    "- "@ + skill.name + ": "@ + skill.summary
}

/// The segment that lists the skills, if there are any.
pub open spec fn index_segments(skills: Seq<SkillInfoView>) -> Seq<PromptSegmentView> {
    if skills.len() == 0 {
        Seq::empty()
    } else {
        seq![
            PromptSegmentView {
                layer: PromptLayer::Skills,
                name: "skill-index"@,
                text: "Available skills:\n"@ + join_of(
                    skills.map_values(|skill: SkillInfoView| index_line(skill)),
                    "\n"@,
                ),
            },
        ]
    }
}

/// The first skill of a name, from `at` on.
pub open spec fn skill_named(skills: Seq<SkillInfoView>, name: Seq<char>, at: int) -> Option<
    SkillInfoView,
>
    decreases skills.len() - at,
{
    if at < 0 || at >= skills.len() {
        None
    } else if skills[at].name == name {
        Some(skills[at])
    } else {
        skill_named(skills, name, at + 1)
    }
}

/// The segments of the selected skills, in the order of the selection, or the first
/// failure: a skill that is not known, or a file that cannot be read.
pub open spec fn selected_segments(
    skills: Seq<SkillInfoView>,
    selected: Seq<Seq<char>>,
    contents: Seq<Result<Seq<char>, Seq<char>>>,
) -> Result<Seq<PromptSegmentView>, FsContextErrorView>
    decreases selected.len(),
{
    if selected.len() == 0 {
        Ok(Seq::empty())
    } else {
        match selected_segments(skills, selected.drop_last(), contents) {
            Err(error) => Err(error),
            Ok(front) => match skill_named(skills, selected.last(), 0) {
                None => Err(FsContextErrorView::UnknownSkill(selected.last())),
                Some(skill) => match contents[selected.len() - 1] {
                    Err(message) => Err(FsContextErrorView::Io(skill.path + ": "@ + message)),
                    Ok(content) => Ok(
                        front.push(
                            PromptSegmentView {
                                layer: PromptLayer::Skills,
                                name: "skill:"@ + skill.name,
                                text: content,
                            },
                        ),
                    ),
                },
            },
        }
    }
}

/// The prompt: stable segments, rules, the skill index, selected skills, volatile
/// segments.
pub open spec fn prompt_of(
    stable: Seq<PromptSegmentView>,
    rules: Result<Seq<PromptSegmentView>, ContextErrorView>,
    skills: Seq<SkillInfoView>,
    selected: Seq<Seq<char>>,
    contents: Seq<Result<Seq<char>, Seq<char>>>,
    volatile: Seq<PromptSegmentView>,
) -> Result<Seq<PromptSegmentView>, FsContextErrorView> {
    match rules {
        Err(error) => Err(FsContextErrorView::Io(context_error_text(error))),
        Ok(segments) => match selected_segments(skills, selected, contents) {
            Err(error) => Err(error),
            Ok(chosen) => Ok(stable + segments + index_segments(skills) + chosen + volatile),
        },
    }
}

/// The segment that tells of omitted groups, if there are any.
pub open spec fn compaction_note(omitted: nat) -> Seq<PromptSegmentView> {
    if omitted == 0 {
        Seq::empty()
    } else {
        seq![
            PromptSegmentView {
                layer: PromptLayer::Compaction,
                name: "deterministic-transcript-window"@,
                text: decimal_of(omitted)
                    + " earlier complete transcript group(s) were omitted by the deterministic context window. No semantic summary was invented."@,
            },
        ]
    }
}

/// The views of file contents.
pub open spec fn content_views(contents: Seq<Result<String, String>>) -> Seq<
    Result<Seq<char>, Seq<char>>,
> {
    contents.map_values(
        |content: Result<String, String>|
            match content {
                Ok(text) => Ok(text@),
                Err(message) => Err(message@),
            },
    )
}

fn write_index(skills: &Vec<SkillInfo>) -> (text: String)
    ensures
        text@ == "Available skills:\n"@ + join_of(
            views(skills@).map_values(|skill: SkillInfoView| index_line(skill)),
            "\n"@,
        ),
{
    let ghost wanted = views(skills@).map_values(|skill: SkillInfoView| index_line(skill));
    let mut found: Vec<String> = Vec::new();
    let mut index: usize = 0;
    assert(views(found@) =~= wanted.take(0));
    while index < skills.len()
        invariant
            index <= skills@.len(),
            wanted == views(skills@).map_values(|skill: SkillInfoView| index_line(skill)),
            views(found@) == wanted.take(index as int),
        decreases skills@.len() - index,
    {
        let line = "- ".to_owned().concat(skills[index].name.as_str()).concat(": ").concat(
            skills[index].summary.as_str(),
        );
        proof {
            lemma_views_push(found@, line);
            assert(wanted.take(index as int + 1) =~= wanted.take(index as int).push(line@));
        }
        found.push(line);
        index = index + 1;
    }
    assert(wanted.take(index as int) =~= wanted);
    "Available skills:\n".to_owned().concat(join(&found, "\n").as_str())
}

fn find_skill<'a>(skills: &'a Vec<SkillInfo>, name: &str) -> (found: Option<&'a SkillInfo>)
    ensures
        match found {
            Some(skill) => skill_named(views(skills@), name@, 0) == Some(skill@),
            None => skill_named(views(skills@), name@, 0) is None,
        },
{
    let ghost all = views(skills@);
    assert(all.len() == skills@.len());
    let mut at: usize = 0;
    while at < skills.len()
        invariant
            at <= skills@.len(),
            all == views(skills@),
            all.len() == skills@.len(),
            skill_named(all, name@, 0) == skill_named(all, name@, at as int),
        decreases skills@.len() - at,
    {
        assert(all[at as int] == skills@[at as int]@);
        if same_text(skills[at].name.as_str(), name) {
            return Some(&skills[at]);
        }
        at = at + 1;
    }
    None
}

/// Makes contexts of rules, skills and a window of the transcript.
#[derive(Debug)]
pub struct FsContextCompiler {
    pub config: FsContextConfig,
    pub rule_loader: DirectoryRuleLoader,
}

impl Clone for FsContextCompiler {
    fn clone(&self) -> (copy: Self)
        ensures
            same_config(copy.config, self.config),
            copy.rule_loader.names() == self.rule_loader.names(),
    {
        FsContextCompiler { config: self.config.clone(), rule_loader: self.rule_loader.clone() }
    }
}

impl FsContextCompiler {
    pub fn new(config: FsContextConfig) -> (compiler: Self)
        ensures
            compiler.config == config,
            compiler.rule_loader.names() == seq!["AGENTS.override.md"@, "AGENTS.md"@],
    {
        FsContextCompiler { config, rule_loader: DirectoryRuleLoader::default() }
    }

    /// The selected skills, in ascending order. `contents` of [`Self::compile_prompt`]
    /// follow this order.
    pub fn selected(&self) -> (names: Vec<String>)
        ensures
            views(names@) == self.config.selected_skills.keys(),
            ascending(views(names@)),
            views(names@).to_set() == self.config.selected_skills@.dom(),
    {
        key_list(&self.config.selected_skills)
    }

    /// Puts the prompt together from the rules and skills that were found. `contents`
    /// holds what the file of each selected skill holds; the entry of a skill that is not
    /// known is not looked at.
    pub fn compile_prompt(
        &self,
        rules: Result<Vec<PromptSegment>, ContextError>,
        skills: &Vec<SkillInfo>,
        contents: &Vec<Result<String, String>>,
    ) -> (prompt: Result<Vec<PromptSegment>, FsContextError>)
        requires
            contents@.len() == self.config.selected_skills.keys().len(),
        ensures
            list_view(prompt) == prompt_of(
                views(self.config.stable_segments@),
                list_view(rules),
                views(skills@),
                self.config.selected_skills.keys(),
                content_views(contents@),
                views(self.config.volatile_segments@),
            ),
    {
        let mut segments = match rules {
            Ok(segments) => segments,
            Err(error) => {
                return Err(FsContextError::Io(error.to_text()));
            },
        };
        let mut prompt = snapshot_all(&self.config.stable_segments);
        proof {
            lemma_views_concat(prompt@, segments@);
        }
        prompt.append(&mut segments);
        let ghost head = views(prompt@);
        assert(views(skills@).len() == skills@.len());
        if skills.len() > 0 {
            let index = PromptSegment::new(
                PromptLayer::Skills,
                "skill-index".to_owned(),
                write_index(skills),
            );
            proof {
                lemma_views_push(prompt@, index);
                assert(head.push(index@) =~= head + index_segments(views(skills@)));
            }
            prompt.push(index);
        } else {
            assert(head =~= head + index_segments(views(skills@)));
        }
        let ghost indexed = views(prompt@);
        let names = self.selected();
        let ghost wanted = views(names@);
        let ghost texts = content_views(contents@);
        let mut at: usize = 0;
        assert(wanted.take(0) =~= Seq::empty());
        assert(indexed + Seq::<PromptSegmentView>::empty() =~= indexed);
        while at < names.len()
            invariant
                at <= names@.len(),
                names@.len() == contents@.len(),
                rules is Ok,
                wanted == views(names@),
                wanted == self.config.selected_skills.keys(),
                texts == content_views(contents@),
                selected_segments(views(skills@), wanted.take(at as int), texts) is Ok,
                views(prompt@) == indexed + selected_segments(
                    views(skills@),
                    wanted.take(at as int),
                    texts,
                )->Ok_0,
            decreases names@.len() - at,
        {
            proof {
                let grown = wanted.take(at as int + 1);
                assert(grown.drop_last() =~= wanted.take(at as int));
                assert(grown.last() == names@[at as int]@);
            }
            match find_skill(skills, names[at].as_str()) {
                None => {
                    proof {
                        lemma_selection_stops(views(skills@), wanted, texts, at as int + 1);
                    }
                    return Err(FsContextError::UnknownSkill(names[at].clone()));
                },
                Some(skill) => match &contents[at] {
                    Err(message) => {
                        proof {
                            lemma_selection_stops(views(skills@), wanted, texts, at as int + 1);
                        }
                        return Err(
                            FsContextError::Io(
                                skill.path.clone().concat(": ").concat(message.as_str()),
                            ),
                        );
                    },
                    Ok(content) => {
                        let segment = PromptSegment::new(
                            PromptLayer::Skills,
                            "skill:".to_owned().concat(skill.name.as_str()),
                            content.clone(),
                        );
                        proof {
                            lemma_views_push(prompt@, segment);
                            let front = selected_segments(
                                views(skills@),
                                wanted.take(at as int),
                                texts,
                            )->Ok_0;
                            assert((indexed + front).push(segment@) =~= indexed + front.push(
                                segment@,
                            ));
                        }
                        prompt.push(segment);
                    },
                },
            }
            at = at + 1;
        }
        assert(wanted.take(at as int) =~= wanted);
        let mut volatile = snapshot_all(&self.config.volatile_segments);
        proof {
            lemma_views_concat(prompt@, volatile@);
        }
        prompt.append(&mut volatile);
        Ok(prompt)
    }

    /// Makes the context of a model request from a compiled prompt and the transcript.
    /// `sizes` is the host's measure of each message of the transcript; the limit is held
    /// against the prompt texts and the messages that are kept.
    pub fn compile(
        &self,
        prompt: Result<Vec<PromptSegment>, FsContextError>,
        transcript: Vec<TranscriptMessage>,
        sizes: &Vec<usize>,
    ) -> (compiled: Result<CompiledContext, ContextError>)
        requires
            sizes@.len() == transcript@.len(),
        ensures
            compiled_view(compiled) == fs_context_of(
                list_view(prompt),
                views(transcript@),
                sizes@,
                self.config.max_transcript_groups,
                self.config.max_characters,
            ),
    {
        let mut segments = match prompt {
            Ok(segments) => segments,
            Err(error) => {
                return Err(ContextError::Read(error.to_text()));
            },
        };
        let ghost all = views(transcript@);
        let ghost given = views(segments@);
        let total: usize = transcript.len();
        let maximum: usize = match self.config.max_transcript_groups {
            Some(groups) => groups,
            None => usize::MAX,
        };
        let (messages, omitted) = compact_transcript(transcript, maximum);
        proof {
            law_compaction_cuts_between_groups(all, maximum as nat);
            assert(all.len() == total);
            assert(views(messages@).len() == messages@.len());
        }
        if omitted > 0 {
            let note = PromptSegment::new(
                PromptLayer::Compaction,
                "deterministic-transcript-window".to_owned(),
                decimal_usize(omitted).concat(
                    " earlier complete transcript group(s) were omitted by the deterministic context window. No semantic summary was invented.",
                ),
            );
            proof {
                lemma_views_push(segments@, note);
                assert(given.push(note@) =~= given + compaction_note(omitted as nat));
            }
            segments.push(note);
        } else {
            assert(given =~= given + compaction_note(0));
        }
        let ghost cut = total - messages@.len();
        let mut actual: usize = add_segment_sizes(&segments, 0);
        let ghost prompt_size = total_size(segment_texts(views(segments@)));
        let mut at: usize = total - messages.len();
        while at < total
            invariant
                0 <= cut <= at <= total,
                total == sizes@.len(),
                actual == capped(prompt_size + sum_of(sizes@, cut, at as int)),
            decreases total - at,
        {
            actual = actual.saturating_add(sizes[at]);
            at = at + 1;
        }
        match self.config.max_characters {
            Some(limit) => {
                if actual > limit {
                    return Err(ContextError::TooLarge { actual, maximum: limit });
                }
            },
            None => {},
        }
        Ok(CompiledContext { prompt: segments, messages })
    }
}

/// The sum of the numbers from `from` up to, not including, `to`.
pub open spec fn sum_of(numbers: Seq<usize>, from: int, to: int) -> nat
    decreases to - from,
{
    if from >= to {
        0
    } else {
        sum_of(numbers, from, to - 1) + numbers[to - 1] as nat
    }
}

/// The context of a prompt and a window of the transcript.
pub open spec fn fs_context_of(
    prompt: Result<Seq<PromptSegmentView>, FsContextErrorView>,
    transcript: Seq<TranscriptMessageView>,
    sizes: Seq<usize>,
    groups: Option<usize>,
    limit: Option<usize>,
) -> Result<CompiledContextView, ContextErrorView> {
    match prompt {
        Err(error) => Err(ContextErrorView::Read(fs_error_text(error))),
        Ok(segments) => {
            let maximum = match groups {
                Some(count) => count as nat,
                None => usize::MAX as nat,
            };
            let messages = compacted(transcript, maximum);
            let told = segments + compaction_note(omitted_groups(transcript, maximum));
            within_limit(
                CompiledContextView { prompt: told, messages },
                capped(
                    total_size(segment_texts(told)) + sum_of(
                        sizes,
                        transcript.len() - messages.len(),
                        transcript.len() as int,
                    ),
                ),
                limit,
            )
        },
    }
}

proof fn lemma_selection_stops(
    skills: Seq<SkillInfoView>,
    selected: Seq<Seq<char>>,
    contents: Seq<Result<Seq<char>, Seq<char>>>,
    count: int,
)
    requires
        0 <= count <= selected.len(),
        selected_segments(skills, selected.take(count), contents) is Err,
    ensures
        selected_segments(skills, selected, contents) == selected_segments(
            skills,
            selected.take(count),
            contents,
        ),
    decreases selected.len(),
{
    if count < selected.len() {
        assert(selected.drop_last().take(count) =~= selected.take(count));
        lemma_selection_stops(skills, selected.drop_last(), contents, count);
    } else {
        assert(selected.take(count) =~= selected);
    }
}

proof fn lemma_skill_named(skills: Seq<SkillInfoView>, name: Seq<char>, at: int)
    ensures
        skill_named(skills, name, at) matches Some(skill) ==> skill.name == name,
    decreases skills.len() - at,
{
    if 0 <= at < skills.len() {
        lemma_skill_named(skills, name, at + 1);
    }
}

/// The body of a skill is loaded only where the skill is selected: the segments of skills
/// are those of the selection, each with what the file of its skill holds.
pub proof fn law_only_selected_skills_are_loaded(
    skills: Seq<SkillInfoView>,
    selected: Seq<Seq<char>>,
    contents: Seq<Result<Seq<char>, Seq<char>>>,
    chosen: Seq<PromptSegmentView>,
)
    requires
        selected_segments(skills, selected, contents) == Ok::<
            Seq<PromptSegmentView>,
            FsContextErrorView,
        >(chosen),
    ensures
        chosen.len() == selected.len(),
        forall|i: int|
            0 <= i < chosen.len() ==> (#[trigger] chosen[i]).name == "skill:"@ + selected[i]
                && contents[i] == Ok::<Seq<char>, Seq<char>>(chosen[i].text),
    decreases selected.len(),
{
    if selected.len() > 0 {
        match selected_segments(skills, selected.drop_last(), contents) {
            Ok(front) => {
                law_only_selected_skills_are_loaded(skills, selected.drop_last(), contents, front);
                lemma_skill_named(skills, selected.last(), 0);
                assert forall|i: int| 0 <= i < chosen.len() implies (#[trigger] chosen[i]).name
                    == "skill:"@ + selected[i] && contents[i] == Ok::<Seq<char>, Seq<char>>(
                    chosen[i].text,
                ) by {
                    if i < front.len() {
                        assert(chosen[i] == front[i]);
                        assert(selected.drop_last()[i] == selected[i]);
                    }
                }
            },
            Err(_) => {},
        }
    }
}

} // verus!
