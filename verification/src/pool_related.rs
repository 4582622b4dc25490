//! The identifiers of the objects that belong to watched pools.

use crate::object::ObjectId;
use crate::text::{
    blank, joined, law_lines_end_at_line_feeds, law_lines_read_back,
    law_trimming_takes_off_the_ends, lemma_joined_with_line_feeds, lemma_outer_empty_only, lines,
    texts_view, tidy_line, trimmed, trimmed_lines, white_space, without_outer_empty,
};
use dashmap::DashSet;
use vstd::prelude::*;

verus! {

/// The concurrent hash set of the `dashmap` crate. Only its members are spoken of, through
/// [`members`].
#[verifier::external_type_specification]
#[verifier::external_body]
#[verifier::reject_recursive_types(K)]
#[verifier::reject_recursive_types(S)]
pub struct ExDashSet<K, S>(DashSet<K, S>);

/// The members of a `DashSet`.
pub uninterp spec fn members(set: DashSet<[u8; 32]>) -> Set<[u8; 32]>;

/// `DashSet::new` makes a set without members.
#[verifier::external_body]
fn new_set() -> (set: DashSet<[u8; 32]>)
    ensures
        members(set) == Set::<[u8; 32]>::empty(),
{
    DashSet::new()
}

/// `DashSet::insert` adds the identifier to the members, leaves the others, and returns true when
/// it was not a member before. The set is borrowed exclusively, so that nobody else changes its
/// members meanwhile and no reference into it is held, on which the call would wait.
#[verifier::external_body]
fn insert_into(set: &mut DashSet<[u8; 32]>, id: [u8; 32]) -> (added: bool)
    ensures
        members(*final(set)) == members(*old(set)).insert(id),
        added == !members(*old(set)).contains(id),
{
    set.insert(id)
}

/// `DashSet::contains` is true exactly of the members.
#[verifier::external_body]
fn is_member(set: &DashSet<[u8; 32]>, id: &[u8; 32]) -> (is: bool)
    ensures
        is == members(*set).contains(*id),
{
    set.contains(id)
}

/// A set of identifiers. The hash set inside can be changed through a shared reference, so it is
/// not handed out: the members change only where this set is borrowed exclusively.
pub struct PoolRelatedIds {
    set: DashSet<[u8; 32]>,
}

impl View for PoolRelatedIds {
    type V = Set<ObjectId>;

    closed spec fn view(&self) -> Set<ObjectId> {
        members(self.set)
    }
}

impl PoolRelatedIds {
    /// The set without members.
    pub fn new() -> (ids: Self)
        ensures
            ids@ == Set::<ObjectId>::empty(),
    {
        PoolRelatedIds { set: new_set() }
    }

    /// Adds an identifier; true when it was not there before.
    pub fn insert(&mut self, id: ObjectId) -> (added: bool)
        ensures
            final(self)@ == old(self)@.insert(id),
            added == !old(self)@.contains(id),
    {
        insert_into(&mut self.set, id)
    }

    /// True of the identifiers in the set.
    pub fn contains(&self, id: &ObjectId) -> (is: bool)
        ensures
            is == self@.contains(*id),
    {
        is_member(&self.set, id)
    }
}

/// Where the identifiers are listed unless the environment names another file.
pub const DEFAULT_POOL_RELATED_IDS_PATH: &'static str = "/var/lib/sui/pool_related_ids.txt";

/// The path of the file that lists the identifiers: what the environment names, if it names one.
pub fn pool_related_ids_path(named: Option<String>) -> (path: String)
    ensures
        named matches Some(name) ==> path@ == name@,
        named is None ==> path@ == DEFAULT_POOL_RELATED_IDS_PATH@,
        named is None ==> path@ == "/var/lib/sui/pool_related_ids.txt"@,
{
    match named {
        Some(name) => name,
        None => DEFAULT_POOL_RELATED_IDS_PATH.to_owned(),
    }
}

/// `parse` may answer `outcome` for the given text.
pub open spec fn parses_to<F: Fn(&str) -> Option<ObjectId>>(
    parse: F,
    text: Seq<char>,
    outcome: Option<ObjectId>,
) -> bool {
    exists|line: &str| line@ == text && #[trigger] call_ensures(parse, (line,), outcome)
}

/// `parse` may answer `outcomes` for the given lines, one for each.
pub open spec fn all_parse_to<F: Fn(&str) -> Option<ObjectId>>(
    parse: F,
    texts: Seq<Seq<char>>,
    outcomes: Seq<Option<ObjectId>>,
) -> bool {
    &&& outcomes.len() == texts.len()
    &&& forall|i: int|
        0 <= i < texts.len() ==> parses_to(parse, texts[i], #[trigger] outcomes[i])
}

/// The identifiers among the outcomes; a line that does not parse adds none.
pub open spec fn ids_among(outcomes: Seq<Option<ObjectId>>) -> Set<ObjectId> {
    Set::new(|id: ObjectId| outcomes.contains(Some(id)))
}

/// `ids` are the identifiers that `parse` may find in the lines of the text, once the white space
/// at either end of the text is taken off.
pub open spec fn read_from<F: Fn(&str) -> Option<ObjectId>>(
    parse: F,
    text: Seq<char>,
    ids: Set<ObjectId>,
) -> bool {
    exists|outcomes: Seq<Option<ObjectId>>|
        #![trigger ids_among(outcomes)]
        all_parse_to(parse, lines(trimmed(text)), outcomes) && ids == ids_among(outcomes)
}

/// The identifiers that a file lists, one on each line. The white space at either end of the file
/// does not count, and a line that does not parse is passed over. Without a file there are none.
pub fn pool_related_object_ids<F: Fn(&str) -> Option<ObjectId>>(
    content: Option<&str>,
    parse: F,
) -> (ids: PoolRelatedIds)
    requires
        forall|line: &str| call_requires(parse, (line,)),
    ensures
        content is None ==> ids@ == Set::<ObjectId>::empty(),
        content matches Some(text) ==> read_from(parse, text@, ids@),
{
    let mut ids = PoolRelatedIds::new();
    let text = match content {
        None => {
            return ids;
        },
        Some(text) => text,
    };
    let listed = trimmed_lines(text);
    let ghost texts = lines(trimmed(text@));
    let ghost mut outcomes: Seq<Option<ObjectId>> = Seq::empty();
    assert(ids@ =~= ids_among(outcomes));
    let mut i: usize = 0;
    while i < listed.len()
        invariant
            forall|line: &str| call_requires(parse, (line,)),
            i <= listed@.len(),
            texts == texts_view(listed@),
            all_parse_to(parse, texts.take(i as int), outcomes),
            ids@ == ids_among(outcomes),
        decreases listed@.len() - i,
    {
        let line = listed[i].as_str();
        let outcome = parse(line);
        let ghost before = outcomes;
        proof {
            assert(texts[i as int] == line@);
            assert(parses_to(parse, texts[i as int], outcome));
            outcomes = before.push(outcome);
            assert forall|k: int| 0 <= k < i + 1 implies parses_to(
                parse,
                texts.take(i + 1)[k],
                #[trigger] outcomes[k],
            ) by {
                if k < i {
                    assert(parses_to(parse, texts.take(i as int)[k], before[k]));
                }
            }
            lemma_ids_among_push(before, outcome);
        }
        if let Some(id) = outcome {
            ids.insert(id);
        }
        i = i + 1;
    }
    assert(texts.take(i as int) =~= texts);
    ids
}

/// One more outcome adds its identifier, if it has one.
proof fn lemma_ids_among_push(outcomes: Seq<Option<ObjectId>>, outcome: Option<ObjectId>)
    ensures
        ids_among(outcomes.push(outcome)) == (match outcome {
            Some(id) => ids_among(outcomes).insert(id),
            None => ids_among(outcomes),
        }),
{
    let more = outcomes.push(outcome);
    assert forall|id: ObjectId| more.contains(Some(id)) <==> (outcomes.contains(Some(id))
        || outcome == Some(id)) by {
        if outcomes.contains(Some(id)) {
            let k = choose|k: int| 0 <= k < outcomes.len() && outcomes[k] == Some(id);
            assert(more[k] == Some(id));
        }
        if outcome == Some(id) {
            assert(more[outcomes.len() as int] == Some(id));
        }
    }
    assert(ids_among(more) =~= (match outcome {
        Some(id) => ids_among(outcomes).insert(id),
        None => ids_among(outcomes),
    }));
}

/// Lines add up: what two parts of a file list together is what the one or the other lists, so
/// neither their order nor a repeated line matters, and no line takes an identifier away.
pub proof fn law_lines_add_up(first: Seq<Option<ObjectId>>, second: Seq<Option<ObjectId>>)
    ensures
        ids_among(first + second) == ids_among(first).union(ids_among(second)),
        ids_among(first + second) == ids_among(second + first),
        ids_among(first).subset_of(ids_among(first + second)),
{
    assert forall|id: ObjectId| (first + second).contains(Some(id)) <==> (first.contains(Some(id))
        || second.contains(Some(id))) by {
        lemma_contains_sum(first, second, Some(id));
    }
    assert forall|id: ObjectId| (second + first).contains(Some(id)) <==> (first.contains(Some(id))
        || second.contains(Some(id))) by {
        lemma_contains_sum(second, first, Some(id));
    }
    assert(ids_among(first + second) =~= ids_among(first).union(ids_among(second)));
    assert(ids_among(first + second) =~= ids_among(second + first));
}

/// `parse` answers by the characters of the text alone, and `answer` is what it answers.
pub open spec fn answers_by_text<F: Fn(&str) -> Option<ObjectId>>(
    parse: F,
    answer: spec_fn(Seq<char>) -> Option<ObjectId>,
) -> bool {
    forall|line: &str, outcome: Option<ObjectId>| #[trigger]
        call_ensures(parse, (line,), outcome) ==> outcome == answer(line@)
}

/// Every line of `first` that parses is a line of `second`.
pub open spec fn parsing_lines_among(
    answer: spec_fn(Seq<char>) -> Option<ObjectId>,
    first: Seq<Seq<char>>,
    second: Seq<Seq<char>>,
) -> bool {
    forall|i: int|
        0 <= i < first.len() && answer(#[trigger] first[i]) is Some ==> second.contains(first[i])
}

/// Only the lines that parse matter, and neither their order nor their number: if the parser
/// answers by the text of a line alone, two files of which each has every line of the other that
/// parses give the same identifiers, and so does one file read twice.
pub proof fn law_only_lines_that_parse_matter<F: Fn(&str) -> Option<ObjectId>>(
    parse: F,
    answer: spec_fn(Seq<char>) -> Option<ObjectId>,
    first: Seq<char>,
    second: Seq<char>,
    first_ids: Set<ObjectId>,
    second_ids: Set<ObjectId>,
)
    requires
        answers_by_text(parse, answer),
        read_from(parse, first, first_ids),
        read_from(parse, second, second_ids),
        parsing_lines_among(answer, lines(trimmed(first)), lines(trimmed(second))),
        parsing_lines_among(answer, lines(trimmed(second)), lines(trimmed(first))),
    ensures
        first_ids == second_ids,
{
    let one = choose|outcomes: Seq<Option<ObjectId>>|
        #![trigger ids_among(outcomes)]
        all_parse_to(parse, lines(trimmed(first)), outcomes) && first_ids == ids_among(outcomes);
    let other = choose|outcomes: Seq<Option<ObjectId>>|
        #![trigger ids_among(outcomes)]
        all_parse_to(parse, lines(trimmed(second)), outcomes) && second_ids == ids_among(outcomes);
    lemma_ids_carry_over(parse, answer, lines(trimmed(first)), lines(trimmed(second)), one, other);
    lemma_ids_carry_over(parse, answer, lines(trimmed(second)), lines(trimmed(first)), other, one);
    assert(first_ids =~= second_ids);
}

/// A file with every line of another that parses gives every identifier that the other gives.
proof fn lemma_ids_carry_over<F: Fn(&str) -> Option<ObjectId>>(
    parse: F,
    answer: spec_fn(Seq<char>) -> Option<ObjectId>,
    first: Seq<Seq<char>>,
    second: Seq<Seq<char>>,
    one: Seq<Option<ObjectId>>,
    other: Seq<Option<ObjectId>>,
)
    requires
        answers_by_text(parse, answer),
        all_parse_to(parse, first, one),
        all_parse_to(parse, second, other),
        parsing_lines_among(answer, first, second),
    ensures
        ids_among(one).subset_of(ids_among(other)),
{
    assert forall|id: ObjectId| ids_among(one).contains(id) implies ids_among(other).contains(
        id,
    ) by {
        let i = choose|i: int| 0 <= i < one.len() && one[i] == Some(id);
        assert(parses_to(parse, first[i], one[i]));
        assert(answer(first[i]) == Some(id));
        assert(second.contains(first[i]));
        let k = choose|k: int| 0 <= k < second.len() && second[k] == first[i];
        assert(parses_to(parse, second[k], other[k]));
        assert(other[k] == Some(id));
    }
}

/// Putting the lines of a file in another order, repeating some of them or adding lines that do
/// not parse changes nothing. The files are made of lines that neither begin nor end with white
/// space, and may end with any white space. An empty line must not parse: at the ends of a file
/// it is not read at all.
pub proof fn law_rewritten_file_lists_the_same<F: Fn(&str) -> Option<ObjectId>>(
    parse: F,
    answer: spec_fn(Seq<char>) -> Option<ObjectId>,
    first: Seq<Seq<char>>,
    first_tail: Seq<char>,
    second: Seq<Seq<char>>,
    second_tail: Seq<char>,
    first_ids: Set<ObjectId>,
    second_ids: Set<ObjectId>,
)
    requires
        answers_by_text(parse, answer),
        forall|i: int| 0 <= i < first.len() ==> tidy_line(#[trigger] first[i]),
        forall|i: int| 0 <= i < second.len() ==> tidy_line(#[trigger] second[i]),
        blank(first_tail),
        blank(second_tail),
        answer(Seq::empty()) is None,
        parsing_lines_among(answer, first, second),
        parsing_lines_among(answer, second, first),
        read_from(parse, joined(first) + first_tail, first_ids),
        read_from(parse, joined(second) + second_tail, second_ids),
    ensures
        first_ids == second_ids,
{
    law_lines_read_back(first, first_tail);
    law_lines_read_back(second, second_tail);
    lemma_outer_empty_does_not_parse(answer, first, second);
    lemma_outer_empty_does_not_parse(answer, second, first);
    law_only_lines_that_parse_matter(
        parse,
        answer,
        joined(first) + first_tail,
        joined(second) + second_tail,
        first_ids,
        second_ids,
    );
}

/// Lines that parse are not among the outer empty ones, if empty lines do not parse.
proof fn lemma_outer_empty_does_not_parse(
    answer: spec_fn(Seq<char>) -> Option<ObjectId>,
    first: Seq<Seq<char>>,
    second: Seq<Seq<char>>,
)
    requires
        answer(Seq::empty()) is None,
        parsing_lines_among(answer, first, second),
    ensures
        parsing_lines_among(answer, without_outer_empty(first), without_outer_empty(second)),
{
    let inner = without_outer_empty(first);
    assert forall|i: int| 0 <= i < inner.len() && answer(#[trigger] inner[i]) is Some implies
        without_outer_empty(second).contains(inner[i]) by {
        let line = inner[i];
        if line.len() == 0 {
            assert(line =~= Seq::empty());
        }
        assert(inner.contains(line));
        lemma_outer_empty_only(first, line);
        let k = choose|k: int| 0 <= k < first.len() && first[k] == line;
        assert(second.contains(first[k]));
        lemma_outer_empty_only(second, line);
    }
}

/// What two sequences together contain.
proof fn lemma_contains_sum<A>(first: Seq<A>, second: Seq<A>, x: A)
    ensures
        (first + second).contains(x) <==> first.contains(x) || second.contains(x),
{
    let sum = first + second;
    if first.contains(x) {
        let k = choose|k: int| 0 <= k < first.len() && first[k] == x;
        assert(sum[k] == x);
    }
    if second.contains(x) {
        let k = choose|k: int| 0 <= k < second.len() && second[k] == x;
        assert(sum[first.len() + k] == x);
    }
}

/// The address whose objects are watched: what the environment names, if it parses.
pub fn watched_address<F: Fn(&str) -> Option<ObjectId>>(named: Option<&str>, parse: F) -> (address:
    Option<ObjectId>)
    requires
        forall|text: &str| call_requires(parse, (text,)),
    ensures
        named matches Some(text) ==> parses_to(parse, text@, address),
        named matches Some(text) ==> call_ensures(parse, (text,), address),
        named is None ==> address is None,
{
    match named {
        Some(text) => {
            let address = parse(text);
            assert(parses_to(parse, text@, address));
            address
        },
        None => None,
    }
}

/// The watched address is what the parser answers for the name, and there is none without a name.
pub proof fn law_watched_address_is_the_answer<F: Fn(&str) -> Option<ObjectId>>(
    named: Option<&str>,
    parse: F,
    answer: spec_fn(Seq<char>) -> Option<ObjectId>,
    address: Option<ObjectId>,
)
    requires
        call_ensures(watched_address::<F>, (named, parse), address),
        forall|line: &str, outcome: Option<ObjectId>| #[trigger]
            call_ensures(parse, (line,), outcome) ==> outcome == answer(line@),
    ensures
        named matches Some(text) ==> address == answer(text@),
        named is None ==> address is None,
{
}

/// The set holds what the parser answered, line by line: the parser was handed every line in its
/// order, and an identifier is in the set exactly when it is one of the outcomes.
pub proof fn law_set_holds_the_answers_line_by_line<F: Fn(&str) -> Option<ObjectId>>(
    text: &str,
    parse: F,
    ids: PoolRelatedIds,
) -> (handed: (Seq<&str>, Seq<Option<ObjectId>>))
    requires
        call_ensures(pool_related_object_ids::<F>, (Some(text), parse), ids),
    ensures
        handed.0.len() == lines(trimmed(text@)).len(),
        handed.1.len() == lines(trimmed(text@)).len(),
        forall|i: int|
            0 <= i < handed.0.len() ==> (#[trigger] handed.0[i])@ == lines(trimmed(text@))[i],
        forall|i: int|
            0 <= i < handed.0.len() ==> call_ensures(
                parse,
                (handed.0[i],),
                #[trigger] handed.1[i],
            ),
        forall|id: ObjectId| #[trigger]
            ids@.contains(id) <==> exists|i: int|
                0 <= i < handed.1.len() && #[trigger] handed.1[i] == Some(id),
{
    let listed = lines(trimmed(text@));
    let outcomes = choose|outcomes: Seq<Option<ObjectId>>|
        #![trigger ids_among(outcomes)]
        all_parse_to(parse, listed, outcomes) && ids@ == ids_among(outcomes);
    let handed = Seq::new(
        listed.len(),
        |i: int|
            choose|line: &str|
                line@ == listed[i] && #[trigger] call_ensures(parse, (line,), outcomes[i]),
    );
    assert forall|i: int| 0 <= i < listed.len() implies (#[trigger] handed[i])@ == listed[i]
        && call_ensures(parse, (handed[i],), outcomes[i]) by {
        assert(parses_to(parse, listed[i], outcomes[i]));
    }
    assert forall|i: int| 0 <= i < listed.len() implies call_ensures(
        parse,
        (handed[i],),
        #[trigger] outcomes[i],
    ) by {
        assert(handed[i]@ == listed[i]);
    }
    assert forall|id: ObjectId| #[trigger] ids@.contains(id) <==> exists|i: int|
        0 <= i < outcomes.len() && #[trigger] outcomes[i] == Some(id) by {
        assert(ids_among(outcomes).contains(id) <==> outcomes.contains(Some(id)));
    }
    (handed, outcomes)
}

/// Every line counts, of whatever length: if the parser answers by the text of a line alone, an
/// identifier is in the set exactly when it is the answer for some line.
pub proof fn law_set_holds_every_answer<F: Fn(&str) -> Option<ObjectId>>(
    text: &str,
    parse: F,
    answer: spec_fn(Seq<char>) -> Option<ObjectId>,
    ids: PoolRelatedIds,
    id: ObjectId,
)
    requires
        call_ensures(pool_related_object_ids::<F>, (Some(text), parse), ids),
        forall|line: &str, outcome: Option<ObjectId>| #[trigger]
            call_ensures(parse, (line,), outcome) ==> outcome == answer(line@),
    ensures
        ids@.contains(id) <==> exists|i: int|
            0 <= i < lines(trimmed(text@)).len() && answer(#[trigger] lines(trimmed(text@))[i])
                == Some(id),
{
    let listed = lines(trimmed(text@));
    let (handed, outcomes) = law_set_holds_the_answers_line_by_line(text, parse, ids);
    assert forall|i: int| 0 <= i < outcomes.len() implies #[trigger] outcomes[i] == answer(
        listed[i],
    ) by {
        assert(handed[i]@ == listed[i]);
        assert(call_ensures(parse, (handed[i],), outcomes[i]));
    }
    if ids@.contains(id) {
        let i = choose|i: int| 0 <= i < outcomes.len() && #[trigger] outcomes[i] == Some(id);
        assert(answer(listed[i]) == Some(id));
    }
    if exists|i: int| 0 <= i < listed.len() && answer(#[trigger] listed[i]) == Some(id) {
        let i = choose|i: int| 0 <= i < listed.len() && answer(#[trigger] listed[i]) == Some(id);
        assert(outcomes[i] == Some(id));
    }
}

/// Without a file there are no identifiers.
pub proof fn law_no_file_no_identifiers<F: Fn(&str) -> Option<ObjectId>>(
    parse: F,
    ids: PoolRelatedIds,
    id: ObjectId,
)
    requires
        call_ensures(pool_related_object_ids::<F>, (None, parse), ids),
    ensures
        !ids@.contains(id),
{
}

/// An identifier is in the set exactly when some line of the file parses to it. The file holds
/// lines, each with its line ending, and then a last line, between any white space.
pub proof fn law_file_lists_its_lines<F: Fn(&str) -> Option<ObjectId>>(
    text: &str,
    parse: F,
    answer: spec_fn(Seq<char>) -> Option<ObjectId>,
    lead: Seq<char>,
    written: Seq<Seq<char>>,
    ends: Seq<Seq<char>>,
    last: Seq<char>,
    tail: Seq<char>,
    ids: PoolRelatedIds,
    id: ObjectId,
)
    requires
        call_ensures(pool_related_object_ids::<F>, (Some(text), parse), ids),
        forall|line: &str, outcome: Option<ObjectId>| #[trigger]
            call_ensures(parse, (line,), outcome) ==> outcome == answer(line@),
        text@ == lead + (Seq::new(written.len(), |i: int| written[i] + ends[i]).flatten() + last)
            + tail,
        forall|i: int| 0 <= i < lead.len() ==> white_space(#[trigger] lead[i]),
        forall|i: int| 0 <= i < tail.len() ==> white_space(#[trigger] tail[i]),
        ends.len() == written.len(),
        forall|i: int| 0 <= i < written.len() ==> !(#[trigger] written[i]).contains('\n'),
        forall|i: int|
            0 <= i < ends.len() ==> {
                ||| (#[trigger] ends[i]) == seq!['\r', '\n']
                ||| ends[i] == seq!['\n'] && (written[i].len() > 0 ==> written[i].last() != '\r')
            },
        !last.contains('\n'),
        last.len() > 0 && !white_space(last.last()),
        written.len() > 0 ==> written[0].len() > 0 && !white_space(written[0][0]),
        written.len() == 0 ==> !white_space(last[0]),
    ensures
        ids@.contains(id) <==> answer(last) == Some(id) || exists|i: int|
            0 <= i < written.len() && answer(#[trigger] written[i]) == Some(id),
{
    let pieces = Seq::new(written.len(), |i: int| written[i] + ends[i]);
    let body = pieces.flatten() + last;
    if written.len() > 0 {
        assert(pieces.flatten() == pieces[0] + pieces.drop_first().flatten());
        assert(body[0] == written[0][0]);
    } else {
        assert(body =~= last);
    }
    assert(body[body.len() - 1] == last.last());
    law_trimming_takes_off_the_ends(lead, body, tail);
    law_lines_end_at_line_feeds(written, ends, last);
    let listed = lines(trimmed(text@));
    assert(listed == written.push(last));
    law_set_holds_every_answer(text, parse, answer, ids, id);
    if answer(last) == Some(id) {
        assert(answer(listed[written.len() as int]) == Some(id));
    }
    if exists|i: int| 0 <= i < written.len() && answer(#[trigger] written[i]) == Some(id) {
        let i = choose|i: int| 0 <= i < written.len() && answer(#[trigger] written[i]) == Some(id);
        assert(answer(listed[i]) == Some(id));
    }
    if ids@.contains(id) {
        let i = choose|i: int| 0 <= i < listed.len() && answer(#[trigger] listed[i]) == Some(id);
        if i < written.len() {
            assert(answer(written[i]) == Some(id));
        }
    }
}

/// A file written one tidy line after the other, a line feed behind each, lists exactly what its
/// lines parse to, provided that an empty line does not parse.
pub proof fn law_tidy_file_lists_its_lines<F: Fn(&str) -> Option<ObjectId>>(
    text: &str,
    parse: F,
    answer: spec_fn(Seq<char>) -> Option<ObjectId>,
    written: Seq<Seq<char>>,
    ids: PoolRelatedIds,
    id: ObjectId,
)
    requires
        call_ensures(pool_related_object_ids::<F>, (Some(text), parse), ids),
        forall|line: &str, outcome: Option<ObjectId>| #[trigger]
            call_ensures(parse, (line,), outcome) ==> outcome == answer(line@),
        answer(Seq::empty()) is None,
        text@ == Seq::new(written.len(), |i: int| written[i].push('\n')).flatten(),
        forall|i: int| 0 <= i < written.len() ==> !(#[trigger] written[i]).contains('\n'),
        forall|i: int|
            0 <= i < written.len() && (#[trigger] written[i]).len() > 0 ==> !white_space(
                written[i].first(),
            ) && !white_space(written[i].last()),
    ensures
        ids@.contains(id) <==> exists|i: int|
            0 <= i < written.len() && answer(#[trigger] written[i]) == Some(id),
{
    let listed = lines(trimmed(text@));
    assert forall|i: int| 0 <= i < written.len() implies tidy_line(#[trigger] written[i]) by {}
    if written.len() > 0 {
        lemma_joined_with_line_feeds(written);
        assert(blank(seq!['\n']));
        law_lines_read_back(written, seq!['\n']);
    } else {
        law_lines_read_back(written, Seq::empty());
        assert(joined(written) + Seq::<char>::empty() =~= text@);
    }
    assert(listed == without_outer_empty(written));
    law_set_holds_every_answer(text, parse, answer, ids, id);
    if ids@.contains(id) {
        let i = choose|i: int| 0 <= i < listed.len() && answer(#[trigger] listed[i]) == Some(id);
        assert(listed.contains(listed[i]));
        lemma_outer_empty_only(written, listed[i]);
        let k = choose|k: int| 0 <= k < written.len() && written[k] == listed[i];
        assert(answer(written[k]) == Some(id));
    }
    if exists|i: int| 0 <= i < written.len() && answer(#[trigger] written[i]) == Some(id) {
        let i = choose|i: int| 0 <= i < written.len() && answer(#[trigger] written[i]) == Some(id);
        if written[i].len() == 0 {
            assert(written[i] =~= Seq::empty());
        }
        assert(written.contains(written[i]));
        lemma_outer_empty_only(written, written[i]);
        let k = choose|k: int| 0 <= k < listed.len() && listed[k] == written[i];
        assert(answer(listed[k]) == Some(id));
    }
}

} // verus!
