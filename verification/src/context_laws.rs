//! What a compiled context holds.

use vstd::prelude::*;

use crate::context::{
    directories_of, lies_in, rule_segment_of, rule_segments_of, within_limit, CompiledContext,
    CompiledContextView, ContextCompiler, ContextError, ContextErrorView, ContextInput,
    FoundRuleView, LayeredContextCompiler, PromptLayer, PromptSegmentView,
};
use crate::context_fs::{
    behind_fence, catalogs, compacted, fence, first_of_name, first_prose_of, frontmatter_of,
    fs_context_of, group_bounds, index_segments, law_compaction_cuts_between_groups,
    law_only_selected_skills_are_loaded, markdown_stem, omitted_groups, prompt_of, prose_from,
    selected_segments, skill_named, skill_names, skill_of, skill_place_of, unquote_end,
    unquote_start, value_in, FsContextErrorView, PathPartView, SkillInfoView,
};
use crate::protocol::TranscriptMessageView;
use crate::text::{join_of, last_index, lines_of, occurs, precedes, stands_at, trim_of};

verus! {

// ---------------------------------------------------------------------------
// Prompts
// ---------------------------------------------------------------------------

/// Every configured stable segment stands in a compiled prompt, in its order and in front of
/// everything else; the rules come right behind, then the list of skills if there are any,
/// then one segment for each selected skill, and the volatile segments come last.
pub proof fn law_prompts_keep_their_layers(
    stable: Seq<PromptSegmentView>,
    rules: Result<Seq<PromptSegmentView>, ContextErrorView>,
    skills: Seq<SkillInfoView>,
    selected: Seq<Seq<char>>,
    contents: Seq<Result<Seq<char>, Seq<char>>>,
    volatile: Seq<PromptSegmentView>,
    prompt: Seq<PromptSegmentView>,
)
    requires
        prompt_of(stable, rules, skills, selected, contents, volatile) == Ok::<
            Seq<PromptSegmentView>,
            FsContextErrorView,
        >(prompt),
    ensures
        ({
            let listed: int = if skills.len() > 0 {
                1
            } else {
                0
            };
            &&& rules matches Ok(found)
            &&& prompt.len() == stable.len() + found.len() + listed + selected.len()
                + volatile.len()
            &&& prompt.take(stable.len() as int) == stable
            &&& prompt.skip(prompt.len() - volatile.len()) == volatile
            &&& prompt.subrange(stable.len() as int, (stable.len() + found.len()) as int) == found
            &&& listed == 1 ==> prompt[(stable.len() + found.len()) as int].name == "skill-index"@
            &&& forall|i: int|
                0 <= i < selected.len() ==> {
                    let segment = prompt[stable.len() + found.len() + listed + i];
                    &&& segment.name == "skill:"@ + #[trigger] selected[i]
                    &&& contents[i] == Ok::<Seq<char>, Seq<char>>(segment.text)
                }
        }),
{
    let found = rules->Ok_0;
    let chosen = selected_segments(skills, selected, contents)->Ok_0;
    law_only_selected_skills_are_loaded(skills, selected, contents, chosen);
    assert(prompt.take(stable.len() as int) =~= stable);
    assert(prompt.skip(prompt.len() - volatile.len()) =~= volatile);
    assert(prompt.subrange(stable.len() as int, (stable.len() + found.len()) as int) =~= found);
    let at = stable.len() + found.len() + index_segments(skills).len();
    assert forall|i: int| 0 <= i < selected.len() implies {
        let segment = prompt[at + i];
        &&& segment.name == "skill:"@ + #[trigger] selected[i]
        &&& contents[i] == Ok::<Seq<char>, Seq<char>>(segment.text)
    } by {
        assert(prompt[at + i] == chosen[i]);
    }
}

/// Two configurations with different stable or volatile segments never compile to the same
/// prompt, the rest being equal.
pub proof fn law_prompts_tell_configurations_apart(
    stable: Seq<PromptSegmentView>,
    other: Seq<PromptSegmentView>,
    rules: Result<Seq<PromptSegmentView>, ContextErrorView>,
    skills: Seq<SkillInfoView>,
    selected: Seq<Seq<char>>,
    contents: Seq<Result<Seq<char>, Seq<char>>>,
    volatile: Seq<PromptSegmentView>,
)
    requires
        stable != other,
        prompt_of(stable, rules, skills, selected, contents, volatile) is Ok,
    ensures
        prompt_of(stable, rules, skills, selected, contents, volatile) != prompt_of(
            other,
            rules,
            skills,
            selected,
            contents,
            volatile,
        ),
        prompt_of(volatile, rules, skills, selected, contents, stable) != prompt_of(
            volatile,
            rules,
            skills,
            selected,
            contents,
            other,
        ),
{
    let one = prompt_of(stable, rules, skills, selected, contents, volatile);
    let two = prompt_of(other, rules, skills, selected, contents, volatile);
    law_prompts_keep_their_layers(
        stable,
        rules,
        skills,
        selected,
        contents,
        volatile,
        one->Ok_0,
    );
    law_prompts_keep_their_layers(other, rules, skills, selected, contents, volatile, two->Ok_0);
    if one == two {
        assert(stable.len() == other.len());
    }
    let three = prompt_of(volatile, rules, skills, selected, contents, stable);
    let four = prompt_of(volatile, rules, skills, selected, contents, other);
    law_prompts_keep_their_layers(
        volatile,
        rules,
        skills,
        selected,
        contents,
        stable,
        three->Ok_0,
    );
    law_prompts_keep_their_layers(
        volatile,
        rules,
        skills,
        selected,
        contents,
        other,
        four->Ok_0,
    );
    if three == four {
        assert(stable.len() == other.len());
    }
}

/// The list of skills names each of them with its summary, one line for each and in their
/// order.
pub proof fn law_skill_lists_name_every_skill(skills: Seq<SkillInfoView>, skill: SkillInfoView)
    ensures
        index_segments(Seq::empty()).len() == 0,
        index_segments(skills.push(skill)).len() == 1,
        index_segments(skills.push(skill))[0].layer == PromptLayer::Skills,
        skills.len() == 0 ==> index_segments(skills.push(skill))[0].text == "Available skills:\n"@
            + ("- "@ + skill.name + ": "@ + skill.summary),
        skills.len() > 0 ==> index_segments(skills.push(skill))[0].text == index_segments(
            skills,
        )[0].text + "\n"@ + ("- "@ + skill.name + ": "@ + skill.summary),
{
    let line = |skill: SkillInfoView| crate::context_fs::index_line(skill);
    let grown = skills.push(skill).map_values(line);
    assert(grown.drop_last() =~= skills.map_values(line));
    assert(grown.last() == "- "@ + skill.name + ": "@ + skill.summary);
    if skills.len() > 0 {
        let head = "Available skills:\n"@;
        let listed = join_of(skills.map_values(line), "\n"@);
        assert(head + (listed + "\n"@ + grown.last()) =~= (head + listed) + "\n"@ + grown.last());
    }
}

proof fn lemma_named(skills: Seq<SkillInfoView>, name: Seq<char>, at: int)
    requires
        0 <= at <= skills.len(),
    ensures
        skill_named(skills, name, at) is Some <==> exists|i: int|
            at <= i < skills.len() && (#[trigger] skills[i]).name == name,
    decreases skills.len() - at,
{
    if at < skills.len() {
        lemma_named(skills, name, at + 1);
    }
}

/// Whether a skill of this name is known, and its file can be read.
pub open spec fn loadable(
    skills: Seq<SkillInfoView>,
    name: Seq<char>,
    content: Result<Seq<char>, Seq<char>>,
) -> bool {
    &&& content is Ok
    &&& exists|k: int| 0 <= k < skills.len() && (#[trigger] skills[k]).name == name
}

/// A selection can be loaded exactly where each selected skill is known and its file can be
/// read.
pub proof fn law_known_skills_are_loaded(
    skills: Seq<SkillInfoView>,
    selected: Seq<Seq<char>>,
    contents: Seq<Result<Seq<char>, Seq<char>>>,
)
    ensures
        selected_segments(skills, selected, contents) is Ok <==> forall|i: int|
            0 <= i < selected.len() ==> loadable(skills, #[trigger] selected[i], contents[i]),
    decreases selected.len(),
{
    if selected.len() > 0 {
        let front = selected.drop_last();
        law_known_skills_are_loaded(skills, front, contents);
        lemma_named(skills, selected.last(), 0);
        assert(selected[selected.len() - 1] == selected.last());
        if selected_segments(skills, selected, contents) is Ok {
            assert forall|i: int| 0 <= i < selected.len() implies loadable(
                skills,
                #[trigger] selected[i],
                contents[i],
            ) by {
                if i < front.len() {
                    assert(front[i] == selected[i]);
                }
            }
        } else if forall|i: int|
            0 <= i < selected.len() ==> loadable(skills, #[trigger] selected[i], contents[i]) {
            assert forall|i: int| 0 <= i < front.len() implies loadable(
                skills,
                #[trigger] front[i],
                contents[i],
            ) by {
                assert(front[i] == selected[i]);
            }
        }
    }
}

// ---------------------------------------------------------------------------
// Contexts
// ---------------------------------------------------------------------------

/// A compiled context has the whole prompt in front, one note more where groups of the
/// transcript were left out and only there, and the newest messages of the transcript,
/// unchanged. Without a limit on groups no message is left out.
pub proof fn law_contexts_hold_prompt_and_window(
    prompt: Result<Seq<PromptSegmentView>, FsContextErrorView>,
    transcript: Seq<TranscriptMessageView>,
    sizes: Seq<usize>,
    groups: Option<usize>,
    limit: Option<usize>,
)
    requires
        transcript.len() <= usize::MAX,
    ensures
        fs_context_of(prompt, transcript, sizes, groups, limit) matches Ok(context) ==> {
            &&& prompt matches Ok(segments)
            &&& segments.len() <= context.prompt.len() <= segments.len() + 1
            &&& context.prompt.take(segments.len() as int) == segments
            &&& context.messages.len() <= transcript.len()
            &&& context.messages == transcript.skip(transcript.len() - context.messages.len())
            &&& context.prompt.len() == segments.len() ==> context.messages == transcript
            &&& groups is None ==> context.messages == transcript && context.prompt == segments
            &&& context.prompt.len() > segments.len() ==> context.prompt.last().layer
                == PromptLayer::Compaction
        },
        prompt is Err ==> fs_context_of(prompt, transcript, sizes, groups, limit) is Err,
        prompt is Ok && limit is None ==> fs_context_of(prompt, transcript, sizes, groups, limit)
            is Ok,
{
    match prompt {
        Ok(segments) => {
            let maximum = match groups {
                Some(count) => count as nat,
                None => usize::MAX as nat,
            };
            law_compaction_cuts_between_groups(transcript, maximum);
            let bounds = group_bounds(transcript, 0);
            let cut = bounds[omitted_groups(transcript, maximum) as int];
            assert(compacted(transcript, maximum) == transcript.skip(cut));
            assert(transcript.len() - compacted(transcript, maximum).len() == cut);
            lemma_groups(transcript, 0);
            match fs_context_of(prompt, transcript, sizes, groups, limit) {
                Ok(context) => {
                    assert(context.prompt.take(segments.len() as int) =~= segments);
                    if omitted_groups(transcript, maximum) == 0 {
                        assert(context.prompt =~= segments);
                    }
                },
                Err(_) => {},
            }
        },
        Err(_) => {},
    }
}

proof fn lemma_groups(messages: Seq<TranscriptMessageView>, at: int)
    requires
        0 <= at <= messages.len(),
    ensures
        1 <= group_bounds(messages, at).len() <= messages.len() - at + 1,
        group_bounds(messages, at)[0] == at,
    decreases messages.len() - at,
{
    if at < messages.len() {
        crate::context_fs::lemma_receipts_from(
            messages,
            at + 1,
            crate::context_fs::expected_receipts(messages[at]),
        );
        lemma_groups(messages, at + crate::context_fs::group_size(messages, at));
    }
}

/// A window keeps as many groups as it may: all of them where they are few enough, and else
/// exactly the maximum.
pub proof fn law_windows_keep_what_they_may(messages: Seq<TranscriptMessageView>, maximum: nat)
    ensures
        ({
            let all = group_bounds(messages, 0).len() - 1;
            let kept = all - omitted_groups(messages, maximum);
            &&& all <= maximum ==> kept == all
            &&& all > maximum ==> kept == maximum
        }),
{
}

/// A context is refused for its size exactly where it is larger than the limit.
pub proof fn law_only_large_contexts_are_refused(
    context: CompiledContextView,
    size: usize,
    maximum: Option<usize>,
)
    ensures
        within_limit(context, size, maximum) is Err <==> (maximum matches Some(limit) && size
            > limit),
        within_limit(context, size, maximum) matches Ok(kept) ==> kept == context,
        within_limit(context, size, maximum) matches Err(error) ==> error
            == (ContextErrorView::TooLarge { actual: size, maximum: maximum->0 }),
{
}

// ---------------------------------------------------------------------------
// Rules
// ---------------------------------------------------------------------------

/// A rule is named by its path below the root and has the text of its file.
pub proof fn law_rules_are_named_by_their_path(root: Seq<Seq<char>>, rule: FoundRuleView)
    ensures
        rule_segment_of(root, rule) is Ok <==> (rule.resolved matches Ok((_, components))
            && lies_in(components, root) && rule.text is Ok),
        rule_segment_of(root, rule) matches Ok(segment) ==> {
            &&& segment.layer == PromptLayer::Rules
            &&& rule.text == Ok::<Seq<char>, Seq<char>>(segment.text)
            &&& forall|below: Seq<Seq<char>>|
                rule.resolved->Ok_0.1 == #[trigger] (root + below) ==> segment.name == join_of(
                    below,
                    "/"@,
                )
        },
{
    match rule.resolved {
        Ok((_, components)) => {
            assert forall|below: Seq<Seq<char>>|
                components == #[trigger] (root + below) implies components.skip(
                root.len() as int,
            ) == below by {
                assert((root + below).skip(root.len() as int) =~= below);
            }
        },
        Err(_) => {},
    }
}

/// Rules are taken one for one and in their order.
pub proof fn law_rules_are_taken_in_order(
    root: Seq<Seq<char>>,
    rules: Seq<FoundRuleView>,
    rule: FoundRuleView,
)
    ensures
        rule_segments_of(root, Seq::empty()) == Ok::<Seq<PromptSegmentView>, ContextErrorView>(
            Seq::empty(),
        ),
        rule_segments_of(root, rules) is Ok && rule_segment_of(root, rule) is Ok
            ==> rule_segments_of(root, rules.push(rule)) == Ok::<
            Seq<PromptSegmentView>,
            ContextErrorView,
        >(rule_segments_of(root, rules)->Ok_0.push(rule_segment_of(root, rule)->Ok_0)),
        rule_segments_of(root, rules) is Err ==> rule_segments_of(root, rules.push(rule))
            == rule_segments_of(root, rules),
        rule_segments_of(root, rules) is Ok && rule_segment_of(root, rule) is Err
            ==> rule_segments_of(root, rules.push(rule)) is Err,
{
    assert(rules.push(rule).drop_last() =~= rules);
}

/// The directories that may hold rules begin with the root, end with the current directory,
/// and each is one step below the one in front of it.
pub proof fn law_rules_are_sought_from_the_root_down(
    root: Seq<Seq<char>>,
    current: Seq<Seq<char>>,
)
    requires
        lies_in(current, root),
    ensures
        ({
            let found = directories_of(root, current);
            &&& found.len() == current.len() - root.len() + 1
            &&& found[0] == root
            &&& found.last() == current
            &&& forall|i: int|
                0 < i < found.len() ==> (#[trigger] found[i]).drop_last() == found[i - 1]
        }),
{
    let found = directories_of(root, current);
    assert(found[0] =~= root);
    assert(found.last() =~= current);
    assert forall|i: int| 0 < i < found.len() implies (#[trigger] found[i]).drop_last() == found[i
        - 1] by {
        assert(found[i].drop_last() =~= found[i - 1]);
    }
}

// ---------------------------------------------------------------------------
// Skills
// ---------------------------------------------------------------------------

proof fn lemma_value_in(lines: Seq<Seq<char>>, at: int, place: int, key: Seq<char>, value: Seq<char>)
    requires
        1 <= at <= place < lines.len(),
        forall|i: int| at <= i <= place ==> !fence(#[trigger] lines[i]),
        forall|i: int, rest: Seq<char>|
            at <= i < place ==> trim_of(#[trigger] lines[i]) != #[trigger] (key + ":"@ + rest),
        trim_of(lines[place]) == key + ":"@ + value,
    ensures
        value_in(lines, at, key) == Some(unquote_end(unquote_start(trim_of(value)))),
    decreases place - at,
{
    let wanted = key + ":"@;
    let line = trim_of(lines[at]);
    assert(!fence(lines[at]));
    if at == place {
        assert(line.subrange(0, wanted.len() as int) =~= wanted);
        assert(line.skip(wanted.len() as int) =~= value);
    } else {
        if stands_at(line, wanted, 0) {
            let rest = line.skip(wanted.len() as int);
            assert(line =~= wanted + rest);
            assert(trim_of(lines[at]) == key + ":"@ + rest);
        }
        lemma_value_in(lines, at + 1, place, key, value);
    }
}

/// What the head of a skill says of a key is the value of its first line for that key, between
/// the fences, without the quotes round it. A text that does not begin with a fence has no
/// head.
pub proof fn law_heads_are_read_up_to_the_fence(
    text: Seq<char>,
    key: Seq<char>,
    place: int,
    value: Seq<char>,
)
    requires
        1 <= place < lines_of(text).len(),
        trim_of(lines_of(text)[0]) == "---"@,
        forall|i: int| 1 <= i <= place ==> trim_of(#[trigger] lines_of(text)[i]) != "---"@,
        forall|i: int, rest: Seq<char>|
            1 <= i < place ==> trim_of(#[trigger] lines_of(text)[i]) != #[trigger] (key + ":"@
                + rest),
        trim_of(lines_of(text)[place]) == key + ":"@ + value,
    ensures
        frontmatter_of(text, key) == Some(unquote_end(unquote_start(trim_of(value)))),
{
    lemma_value_in(lines_of(text), 1, place, key, value);
}

/// A text without a fence in its first line has no head.
pub proof fn law_texts_without_fence_have_no_head(text: Seq<char>, key: Seq<char>)
    requires
        lines_of(text).len() == 0 || trim_of(lines_of(text)[0]) != "---"@,
    ensures
        frontmatter_of(text, key) is None,
{
}

proof fn lemma_prose(lines: Seq<Seq<char>>, at: int)
    requires
        0 <= at,
    ensures
        prose_from(lines, at) matches Some(found) ==> exists|place: int|
            at <= place < lines.len() && found == trim_of(#[trigger] lines[place]) && found.len()
                > 0 && found[0] != '#' && forall|i: int|
                at <= i < place ==> trim_of(#[trigger] lines[i]).len() == 0 || trim_of(
                    lines[i],
                )[0] == '#',
        prose_from(lines, at) is None ==> forall|i: int|
            at <= i < lines.len() ==> trim_of(#[trigger] lines[i]).len() == 0 || trim_of(
                lines[i],
            )[0] == '#',
    decreases lines.len() - at,
{
    if at < lines.len() {
        let line = trim_of(lines[at]);
        if line.len() > 0 && line[0] != '#' {
            assert(line == trim_of(lines[at]));
        } else {
            lemma_prose(lines, at + 1);
            match prose_from(lines, at + 1) {
                Some(found) => {
                    let place = choose|place: int|
                        at + 1 <= place < lines.len() && found == trim_of(#[trigger] lines[place])
                            && found.len() > 0 && found[0] != '#' && forall|i: int|
                            at + 1 <= i < place ==> trim_of(#[trigger] lines[i]).len() == 0
                                || trim_of(lines[i])[0] == '#';
                    assert(found == trim_of(lines[place]));
                },
                None => {},
            }
        }
    }
}

/// A skill is named and summed up by the head of its file. Without a name it has the name of
/// its place, and without a description the first line behind its head that is neither blank
/// nor a heading.
pub proof fn law_skills_are_named_by_their_file(
    text: Seq<char>,
    fallback: Seq<char>,
    path: Seq<char>,
)
    ensures
        ({
            let skill = skill_of(text, fallback, path);
            let lines = lines_of(text);
            &&& skill.path == path
            &&& (frontmatter_of(text, "name"@) matches Some(name) ==> skill.name == name)
            &&& (frontmatter_of(text, "name"@) is None ==> skill.name == fallback)
            &&& (frontmatter_of(text, "description"@) matches Some(told) ==> skill.summary == told)
            &&& (frontmatter_of(text, "description"@) is None && lines.len() > 0 && trim_of(
                lines[0],
            ) != "---"@ && trim_of(lines[0]).len() > 0 && trim_of(lines[0])[0] != '#'
                ==> skill.summary == trim_of(lines[0]))
            &&& (frontmatter_of(text, "description"@) is None && first_prose_of(text) is Some
                ==> exists|place: int|
                0 <= place < lines.len() && skill.summary == trim_of(#[trigger] lines[place])
                    && skill.summary.len() > 0 && skill.summary[0] != '#')
        }),
{
    let lines = lines_of(text);
    let start = if lines.len() > 0 && fence(lines[0]) {
        behind_fence(lines, 1)
    } else {
        0
    };
    lemma_behind_fence(lines, 1);
    lemma_prose(lines, start);
}

proof fn lemma_behind_fence(lines: Seq<Seq<char>>, at: int)
    requires
        0 <= at,
    ensures
        0 <= behind_fence(lines, at),
    decreases lines.len() - at,
{
    if at < lines.len() && !fence(lines[at]) {
        lemma_behind_fence(lines, at + 1);
    }
}

/// A directory holds its skill in `SKILL.md`, and the skill falls back to the name of the
/// directory. A file is a skill where its name ends in `.md` and has something in front.
pub proof fn law_skills_stand_in_their_places(
    root: Option<PathPartView>,
    entry: PathPartView,
    stem: Seq<char>,
)
    ensures
        skill_place_of(root, entry, true) matches Some(place) && place.inside == Some("SKILL.md"@)
            && (entry.readable ==> place.fallback == entry.shown),
        stem.len() > 0 && entry.shown == stem + ".md"@ ==> (skill_place_of(
            root,
            entry,
            false,
        ) matches Some(place) && place.inside is None && (root is None && entry.readable
            ==> place.fallback == stem) && (root matches Some(above) && above.readable
            ==> place.fallback == root->0.shown)),
        !stands_at(entry.shown, "."@, entry.shown.len() - 3) ==> skill_place_of(
            root,
            entry,
            false,
        ) is None,
{
    reveal_strlit(".md");
    reveal_strlit("md");
    reveal_strlit(".");
    let name = entry.shown;
    lemma_last_dot(name, name.len() as int);
    if stem.len() > 0 && name == stem + ".md"@ {
        assert(name.subrange(stem.len() as int, stem.len() as int + 1) =~= "."@);
        lemma_last_dot_is(name, name.len() as int, stem.len() as int);
        assert(name.take(stem.len() as int) =~= stem);
        assert(name.skip(stem.len() as int + 1) =~= "md"@);
    }
    match markdown_stem(name) {
        Some(_) => {
            let at = last_index(name, "."@, name.len() as int);
            assert(name.skip(at + 1).len() == 2);
        },
        None => {},
    }
}

proof fn lemma_last_dot(text: Seq<char>, from: int)
    requires
        from <= text.len(),
    ensures
        -1 <= last_index(text, "."@, from) <= from || from < 0,
        last_index(text, "."@, from) >= 0 ==> stands_at(
            text,
            "."@,
            last_index(text, "."@, from),
        ),
    decreases from + 1,
{
    if from >= 0 && !stands_at(text, "."@, from) {
        lemma_last_dot(text, from - 1);
    }
}

proof fn lemma_last_dot_is(text: Seq<char>, from: int, at: int)
    requires
        0 <= at <= from <= text.len(),
        at + 3 == text.len(),
        stands_at(text, "."@, at),
        text[at + 1] == 'm',
        text[at + 2] == 'd',
    ensures
        last_index(text, "."@, from) == at,
    decreases from - at,
{
    reveal_strlit(".");
    if from > at {
        if stands_at(text, "."@, from) {
            assert(text.subrange(from, from + 1)[0] == '.');
        }
        lemma_last_dot_is(text, from - 1, at);
    }
}

/// A catalog has each name once, in ascending order: of several skills of one name it has the one
/// that was found first, and no name is missing.
pub proof fn law_catalogs_keep_the_first_of_a_name(
    catalog: Seq<SkillInfoView>,
    skills: Seq<SkillInfoView>,
    index: int,
)
    requires
        catalogs(catalog, skills),
        0 <= index < skills.len(),
        forall|j: int| 0 <= j < index ==> (#[trigger] skills[j]).name != skills[index].name,
    ensures
        catalog.contains(skills[index]),
        forall|i: int, j: int|
            0 <= i < j < catalog.len() ==> precedes(
                (#[trigger] catalog[i]).name,
                (#[trigger] catalog[j]).name,
            ),
{
    let names = skill_names(catalog);
    assert(names.contains(skills[index].name));
    let k = choose|k: int| 0 <= k < names.len() && names[k] == skills[index].name;
    assert(first_of_name(skills, catalog[k]));
    let i = choose|i: int|
        0 <= i < skills.len() && #[trigger] skills[i] == catalog[k] && forall|j: int|
            0 <= j < i ==> (#[trigger] skills[j]).name != catalog[k].name;
    if i < index {
        assert(skills[i].name != skills[index].name);
    } else if index < i {
        assert(skills[index].name != catalog[k].name);
    }
    assert(catalog[k] == skills[index]);
    assert forall|i: int, j: int| 0 <= i < j < catalog.len() implies precedes(
        (#[trigger] catalog[i]).name,
        (#[trigger] catalog[j]).name,
    ) by {
        assert(precedes(names[i], names[j]));
    }
}

/// The layered compiler puts its segments, in their order, in front of the whole transcript, and
/// fails only where both are too large together.
pub proof fn law_layers_stand_in_front_of_the_transcript(
    compiler: LayeredContextCompiler,
    input: ContextInput,
    compiled: Result<CompiledContext, ContextError>,
)
    requires
        call_ensures(
            <LayeredContextCompiler as ContextCompiler>::compile,
            (&compiler, input),
            compiled,
        ),
    ensures
        compiled matches Ok(context) ==> context@.prompt == compiler.segments()
            && context@.messages == input@.transcript,
        compiled matches Err(error) ==> error@ is TooLarge && compiler.limit() is Some,
        compiler.limit() is None ==> compiled is Ok,
{
}

proof fn lemma_stands(before: Seq<char>, part: Seq<char>, behind: Seq<char>)
    ensures
        occurs(before + part + behind, part),
        occurs(before + part, part),
        occurs(part + behind, part),
{
    let at = before.len() as int;
    let end = at + part.len();
    assert((before + part + behind).subrange(at, end) =~= part);
    assert(stands_at(before + part + behind, part, at));
    assert((before + part).subrange(at, end) =~= part);
    assert(stands_at(before + part, part, at));
    assert((part + behind).subrange(0, part.len() as int) =~= part);
    assert(stands_at(part + behind, part, 0));
}

/// A rule that cannot be used is refused with its place and the reason.
pub proof fn law_refused_rules_tell_why(root: Seq<Seq<char>>, rule: FoundRuleView)
    ensures
        rule.resolved matches Err(message) ==> (rule_segment_of(root, rule) matches Err(
            ContextErrorView::Path(told),
        ) && occurs(told, rule.shown) && occurs(told, message)),
        rule.resolved matches Ok((shown, components)) ==> !lies_in(components, root) ==> (
        rule_segment_of(root, rule) matches Err(ContextErrorView::Path(told)) && occurs(
            told,
            rule.shown,
        )),
        rule.resolved matches Ok((shown, components)) ==> lies_in(components, root) ==> (
        rule.text matches Err(message) ==> (rule_segment_of(root, rule) matches Err(
            ContextErrorView::Read(told),
        ) && occurs(told, shown) && occurs(told, message))),
{
    lemma_stands("rule file `"@, rule.shown, "` resolves outside project root"@);
    match rule.resolved {
        Err(message) => {
            lemma_stands(rule.shown + ": "@, message, Seq::empty());
            lemma_stands(Seq::empty(), rule.shown, ": "@ + message);
            assert(rule.shown + (": "@ + message) =~= rule.shown + ": "@ + message);
        },
        Ok((shown, components)) => match rule.text {
            Err(message) => {
                lemma_stands(shown + ": "@, message, Seq::empty());
                lemma_stands(Seq::empty(), shown, ": "@ + message);
                assert(shown + (": "@ + message) =~= shown + ": "@ + message);
            },
            Ok(_) => {},
        },
    }
}

/// A selected skill that cannot be read is refused with the reason, and one that is not there
/// under its name.
pub proof fn law_refused_skills_tell_why(
    skills: Seq<SkillInfoView>,
    selected: Seq<Seq<char>>,
    name: Seq<char>,
    contents: Seq<Result<Seq<char>, Seq<char>>>,
)
    requires
        selected_segments(skills, selected, contents) is Ok,
        contents.len() > selected.len(),
    ensures
        ({
            let answer = selected_segments(skills, selected.push(name), contents);
            let known = exists|i: int|
                0 <= i < skills.len() && (#[trigger] skills[i]).name == name;
            &&& !known ==> answer == Err::<Seq<PromptSegmentView>, FsContextErrorView>(
                FsContextErrorView::UnknownSkill(name),
            )
            &&& known ==> (contents[selected.len() as int] matches Err(message) ==> (
            answer matches Err(FsContextErrorView::Io(told)) && occurs(told, message)))
        }),
{
    assert(selected.push(name).drop_last() =~= selected);
    lemma_named(skills, name, 0);
    match skill_named(skills, name, 0) {
        Some(skill) => match contents[selected.len() as int] {
            Err(message) => {
                lemma_stands(skill.path + ": "@, message, Seq::empty());
            },
            Ok(_) => {},
        },
        None => {},
    }
}

proof fn lemma_quotes_off(text: Seq<char>, quote: char)
    requires
        text.len() > 0,
        text[0] != '"' && text[0] != '\'',
        text.last() != '"' && text.last() != '\'',
        quote == '"' || quote == '\'',
    ensures
        unquote_end(unquote_start(text)) == text,
        unquote_end(unquote_start(seq![quote] + text + seq![quote])) == text,
{
    let whole = seq![quote] + text + seq![quote];
    assert(whole.skip(1) =~= text + seq![quote]);
    assert((text + seq![quote]).drop_last() =~= text);
    assert(whole[0] == quote);
    assert((text + seq![quote])[0] == text[0]);
    assert(unquote_start(whole.skip(1)) == whole.skip(1));
    assert(unquote_start(whole) == text + seq![quote]);
    assert((text + seq![quote]).last() == quote);
    assert(unquote_end(text) == text);
}

/// A value in a head is read without the quotes around it, and as it is where it has none.
pub proof fn law_heads_are_read_without_quotes(
    text: Seq<char>,
    key: Seq<char>,
    place: int,
    value: Seq<char>,
    inner: Seq<char>,
    quote: char,
)
    requires
        1 <= place < lines_of(text).len(),
        trim_of(lines_of(text)[0]) == "---"@,
        forall|i: int| 1 <= i <= place ==> trim_of(#[trigger] lines_of(text)[i]) != "---"@,
        forall|i: int, rest: Seq<char>|
            1 <= i < place ==> trim_of(#[trigger] lines_of(text)[i]) != #[trigger] (key + ":"@
                + rest),
        trim_of(lines_of(text)[place]) == key + ":"@ + value,
        inner.len() > 0,
        inner[0] != '"' && inner[0] != '\'',
        inner.last() != '"' && inner.last() != '\'',
        quote == '"' || quote == '\'',
    ensures
        trim_of(value) == inner ==> frontmatter_of(text, key) == Some(inner),
        trim_of(value) == seq![quote] + inner + seq![quote] ==> frontmatter_of(text, key) == Some(
            inner,
        ),
{
    law_heads_are_read_up_to_the_fence(text, key, place, value);
    lemma_quotes_off(inner, quote);
}

proof fn lemma_first_fence(lines: Seq<Seq<char>>, at: int, place: int)
    requires
        0 <= at <= place < lines.len(),
        trim_of(lines[place]) == "---"@,
        forall|i: int| at <= i < place ==> trim_of(#[trigger] lines[i]) != "---"@,
    ensures
        behind_fence(lines, at) == place + 1,
    decreases place - at,
{
    if at < place {
        lemma_first_fence(lines, at + 1, place);
    }
}

/// The first line of prose is looked for behind the head, from its closing fence on.
pub proof fn law_prose_begins_behind_the_head(text: Seq<char>, place: int)
    requires
        1 <= place < lines_of(text).len() - 1,
        trim_of(lines_of(text)[0]) == "---"@,
        trim_of(lines_of(text)[place]) == "---"@,
        forall|i: int| 1 <= i < place ==> trim_of(#[trigger] lines_of(text)[i]) != "---"@,
        trim_of(lines_of(text)[place + 1]).len() > 0,
        trim_of(lines_of(text)[place + 1])[0] != '#',
    ensures
        first_prose_of(text) == Some(trim_of(lines_of(text)[place + 1])),
{
    lemma_first_fence(lines_of(text), 1, place);
}

} // verus!
