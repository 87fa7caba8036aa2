//! Checks made when captures are compared side by side: enough captures, and
//! a warning for every dimension in which they differ.
use vstd::prelude::*;

use crate::analysis::paired::lemma_listing_distinct;
use crate::error::AppError;
use crate::strings::{decimal, decimal_text, join_texts, joined};

verus! {

/// `left` sorts before `right` in code point order: at the first position
/// where they differ its character is smaller, or it is a proper prefix.
/// UTF-8 preserves this order, so it is the byte order of `String` too.
pub open spec fn text_before(left: Seq<char>, right: Seq<char>) -> bool
    decreases left.len(),
{
    if left.len() == 0 {
        right.len() > 0
    } else if right.len() == 0 {
        false
    } else if left[0] != right[0] {
        (left[0] as int) < (right[0] as int)
    } else {
        text_before(left.drop_first(), right.drop_first())
    }
}

/// No text sorts before itself, and two texts never sort before each other.
pub proof fn lemma_text_before_asymmetric(left: Seq<char>, right: Seq<char>)
    ensures
        !(text_before(left, right) && text_before(right, left)),
        !text_before(left, left),
    decreases left.len(),
{
    if left.len() > 0 && right.len() > 0 && left[0] == right[0] {
        lemma_text_before_asymmetric(left.drop_first(), right.drop_first());
    }
    if left.len() > 0 {
        lemma_text_before_asymmetric(left.drop_first(), left.drop_first());
    }
}

/// Sorting before is transitive.
pub proof fn lemma_text_before_transitive(first: Seq<char>, second: Seq<char>, third: Seq<char>)
    requires
        text_before(first, second),
        text_before(second, third),
    ensures
        text_before(first, third),
    decreases first.len(),
{
    if first.len() > 0 && first[0] == second[0] && second[0] == third[0] {
        lemma_text_before_transitive(first.drop_first(), second.drop_first(), third.drop_first());
    }
}

/// Of two different texts one sorts before the other.
pub proof fn lemma_text_before_total(left: Seq<char>, right: Seq<char>)
    requires
        left != right,
    ensures
        text_before(left, right) || text_before(right, left),
    decreases left.len(),
{
    if left.len() > 0 && right.len() > 0 && left[0] == right[0] {
        if left.drop_first() == right.drop_first() {
            assert(left =~= seq![left[0]] + left.drop_first());
            assert(right =~= seq![right[0]] + right.drop_first());
        }
        lemma_text_before_total(left.drop_first(), right.drop_first());
    } else if left.len() == 0 && right.len() == 0 {
        assert(left =~= right);
    } else if left.len() > 0 && right.len() > 0 {
        assert(left[0] as int != right[0] as int);
    }
}

/// Texts that share their first `count` characters compare as what follows.
proof fn lemma_text_before_skip(left: Seq<char>, right: Seq<char>, count: int)
    requires
        0 <= count <= left.len(),
        count <= right.len(),
        left.take(count) == right.take(count),
    ensures
        text_before(left, right) == text_before(left.skip(count), right.skip(count)),
    decreases count,
{
    if count > 0 {
        assert(left[0] == left.take(count)[0]);
        assert(right[0] == right.take(count)[0]);
        assert(left.drop_first().take(count - 1) =~= left.take(count).drop_first());
        assert(right.drop_first().take(count - 1) =~= right.take(count).drop_first());
        lemma_text_before_skip(left.drop_first(), right.drop_first(), count - 1);
        assert(left.drop_first().skip(count - 1) =~= left.skip(count));
        assert(right.drop_first().skip(count - 1) =~= right.skip(count));
    } else {
        assert(left.skip(0) =~= left);
        assert(right.skip(0) =~= right);
    }
}

/// Whether `left` sorts before `right`.
pub fn text_precedes(left: &str, right: &str) -> (before: bool)
    ensures
        before == text_before(left@, right@),
{
    let left_length = left.unicode_len();
    let right_length = right.unicode_len();
    let mut index: usize = 0;
    while index < left_length && index < right_length
        invariant
            left_length == left@.len(),
            right_length == right@.len(),
            index <= left_length,
            index <= right_length,
            left@.take(index as int) == right@.take(index as int),
        decreases left_length - index,
    {
        let a = left.get_char(index);
        let b = right.get_char(index);
        if a != b {
            proof {
                lemma_text_before_skip(left@, right@, index as int);
                assert(left@.skip(index as int)[0] == a);
                assert(right@.skip(index as int)[0] == b);
            }
            return (a as u32) < (b as u32);
        }
        assert(left@.take(index + 1) =~= left@.take(index as int).push(a));
        assert(right@.take(index + 1) =~= right@.take(index as int).push(b));
        index = index + 1;
    }
    proof {
        lemma_text_before_skip(left@, right@, index as int);
        if index == left_length {
            assert(left@.skip(index as int).len() == 0);
        } else {
            assert(right@.skip(index as int).len() == 0);
        }
    }
    index == left_length && index < right_length
}

/// Each text sorts before the next.
pub open spec fn sorted_texts(texts: Seq<Seq<char>>) -> bool {
    forall|i: int, j: int| 0 <= i < j < texts.len() ==> text_before(texts[i], texts[j])
}

/// The distinct texts of `members`, in sorted order.
pub open spec fn sorted_members(members: Set<Seq<char>>) -> Seq<Seq<char>> {
    choose|texts: Seq<Seq<char>>| sorted_texts(texts) && texts.to_set() == members
}

/// Two sorted listings of the same texts are the same listing.
pub proof fn lemma_sorted_texts_unique(left: Seq<Seq<char>>, right: Seq<Seq<char>>)
    requires
        sorted_texts(left),
        sorted_texts(right),
        left.to_set() == right.to_set(),
    ensures
        left == right,
    decreases left.len(),
{
    if left.len() == 0 {
        if right.len() > 0 {
            assert(right.to_set().contains(right[0]));
        }
        assert(left =~= right);
    } else if right.len() == 0 {
        assert(left.to_set().contains(left[0]));
    } else {
        assert(left.to_set().contains(left[0]));
        assert(right.to_set().contains(right[0]));
        let i = choose|i: int| 0 <= i < right.len() && right[i] == left[0];
        let j = choose|j: int| 0 <= j < left.len() && left[j] == right[0];
        assert(left[0] == right[0]) by {
            if i > 0 && j > 0 {
                assert(text_before(right[0], right[i]));
                assert(text_before(left[0], left[j]));
                lemma_text_before_asymmetric(left[0], right[0]);
            } else if i > 0 {
                assert(text_before(right[0], right[i]));
                lemma_text_before_asymmetric(right[0], right[0]);
            } else if j > 0 {
                assert(text_before(left[0], left[j]));
                lemma_text_before_asymmetric(left[0], left[0]);
            }
        }
        let left_rest = left.drop_first();
        let right_rest = right.drop_first();
        assert forall|text: Seq<char>| left_rest.to_set().contains(text) implies right_rest.to_set().contains(
            text,
        ) by {
            let k = choose|k: int| 0 <= k < left_rest.len() && left_rest[k] == text;
            assert(left[k + 1] == text);
            assert(left.to_set().contains(text));
            let m = choose|m: int| 0 <= m < right.len() && right[m] == text;
            if m == 0 {
                assert(text_before(left[0], left[k + 1]));
                lemma_text_before_asymmetric(text, text);
            }
            assert(right_rest[m - 1] == text);
        }
        assert forall|text: Seq<char>| right_rest.to_set().contains(text) implies left_rest.to_set().contains(
            text,
        ) by {
            let k = choose|k: int| 0 <= k < right_rest.len() && right_rest[k] == text;
            assert(right[k + 1] == text);
            assert(right.to_set().contains(text));
            let m = choose|m: int| 0 <= m < left.len() && left[m] == text;
            if m == 0 {
                assert(text_before(right[0], right[k + 1]));
                lemma_text_before_asymmetric(text, text);
            }
            assert(left_rest[m - 1] == text);
        }
        assert(left_rest.to_set() =~= right_rest.to_set());
        lemma_sorted_texts_unique(left_rest, right_rest);
        assert(left =~= right) by {
            assert forall|k: int| 0 <= k < left.len() implies left[k] == right[k] by {
                if k > 0 {
                    assert(left[k] == left_rest[k - 1]);
                    assert(right[k] == right_rest[k - 1]);
                }
            }
        }
    }
}

/// Adds `text` to a sorted list of distinct strings unless it is there already.
fn insert_sorted(texts: &mut Vec<String>, text: String)
    requires
        sorted_texts(old(texts)@.map_values(|entry: String| entry@)),
    ensures
        sorted_texts(final(texts)@.map_values(|entry: String| entry@)),
        final(texts)@.map_values(|entry: String| entry@).to_set() == old(texts)@.map_values(
            |entry: String| entry@,
        ).to_set().insert(text@),
{
    let ghost before = texts@.map_values(|entry: String| entry@);
    let mut position: usize = 0;
    while position < texts.len() && text_precedes(texts[position].as_str(), text.as_str())
        invariant
            position <= texts@.len(),
            before == texts@.map_values(|entry: String| entry@),
            forall|i: int| 0 <= i < position ==> text_before(before[i], text@),
        decreases texts@.len() - position,
    {
        position = position + 1;
    }
    if position < texts.len() && texts[position] == text {
        assert(before[position as int] == text@);
        assert(before.to_set().contains(text@));
        assert(before.to_set().insert(text@) =~= before.to_set());
        return;
    }
    proof {
        if position < before.len() {
            assert(before[position as int] != text@);
            lemma_text_before_total(before[position as int], text@);
        }
    }
    texts.insert(position, text);
    let ghost after = texts@.map_values(|entry: String| entry@);
    proof {
        assert(after.len() == before.len() + 1);
        assert forall|i: int| 0 <= i < after.len() implies #[trigger] after[i] == (if i < position {
            before[i]
        } else if i == position {
            text@
        } else {
            before[i - 1]
        }) by {}
        assert forall|i: int, j: int| 0 <= i < j < after.len() implies text_before(
            after[i],
            after[j],
        ) by {
            if j < position {
            } else if j == position {
            } else if i < position {
                if j - 1 > i {
                    assert(text_before(before[i], before[j - 1]));
                } else {
                    assert(i == j - 1);
                    lemma_text_before_transitive(before[i], text@, before[j - 1]);
                }
                assert(text_before(before[i], text@));
                lemma_text_before_transitive(before[i], text@, before[position as int]);
                if j - 1 > position {
                    assert(text_before(before[position as int], before[j - 1]));
                    lemma_text_before_transitive(before[i], before[position as int], before[j - 1]);
                }
            } else if i == position {
                if j - 1 > position {
                    assert(text_before(before[position as int], before[j - 1]));
                    lemma_text_before_transitive(text@, before[position as int], before[j - 1]);
                }
            } else {
                assert(text_before(before[i - 1], before[j - 1]));
            }
        }
        assert forall|member: Seq<char>| after.to_set().contains(member) implies before.to_set().insert(
            text@,
        ).contains(member) by {
            let k = choose|k: int| 0 <= k < after.len() && after[k] == member;
            if k < position {
                assert(before[k] == member);
            } else if k > position {
                assert(before[k - 1] == member);
            }
        }
        assert forall|member: Seq<char>| before.to_set().insert(text@).contains(member) implies after.to_set().contains(
            member,
        ) by {
            if member == text@ {
                assert(after[position as int] == member);
            } else {
                let k = choose|k: int| 0 <= k < before.len() && before[k] == member;
                if k < position {
                    assert(after[k] == member);
                } else {
                    assert(after[k + 1] == member);
                }
            }
        }
        assert(after.to_set() =~= before.to_set().insert(text@));
    }
}

/// The warning for captures whose `label` takes the distinct values
/// `values`: none when they all agree.
pub open spec fn difference_warning_spec(label: Seq<char>, values: Set<Seq<char>>) -> Option<Seq<char>> {
    let sorted = sorted_members(values);
    if sorted.len() > 1 {
        Some("captures differ in "@ + label + ": "@ + joined(sorted, ", "@))
    } else {
        None
    }
}

/// Warns when the compared captures do not all share one value of `label`:
/// the distinct values are listed in sorted order.
pub fn difference_warning(label: &str, values: &Vec<String>) -> (warning: Option<String>)
    ensures
        ({
            let members = values@.map_values(|entry: String| entry@).to_set();
            &&& sorted_texts(sorted_members(members))
            &&& sorted_members(members).to_set() == members
            &&& match difference_warning_spec(label@, members) {
                Some(text) => warning matches Some(found) && found@ == text,
                None => warning is None,
            }
        }),
{
    let mut distinct: Vec<String> = Vec::new();
    let mut index: usize = 0;
    assert(distinct@.map_values(|entry: String| entry@).to_set() =~= values@.take(0).map_values(
        |entry: String| entry@,
    ).to_set());
    while index < values.len()
        invariant
            index <= values@.len(),
            sorted_texts(distinct@.map_values(|entry: String| entry@)),
            distinct@.map_values(|entry: String| entry@).to_set() == values@.take(
                index as int,
            ).map_values(|entry: String| entry@).to_set(),
        decreases values@.len() - index,
    {
        let copy = values[index].clone();
        assert(copy@ == values@[index as int]@);
        insert_sorted(&mut distinct, copy);
        proof {
            let seen = values@.take(index as int).map_values(|entry: String| entry@);
            assert(values@.take(index + 1).map_values(|entry: String| entry@) =~= seen.push(
                values@[index as int]@,
            ));
            seen.lemma_push_to_set_commute(values@[index as int]@);
        }
        index = index + 1;
    }
    assert(values@.take(values@.len() as int) =~= values@);
    let ghost listed = distinct@.map_values(|entry: String| entry@);
    let ghost members = values@.map_values(|entry: String| entry@).to_set();
    proof {
        let chosen = sorted_members(members);
        assert(sorted_texts(listed) && listed.to_set() == members);
        lemma_sorted_texts_unique(chosen, listed);
    }
    if distinct.len() > 1 {
        let mut text = String::from_str("captures differ in ");
        text.append(label);
        text.append(": ");
        let list = join_texts(&distinct, ", ");
        text.append(list.as_str());
        Some(text)
    } else {
        None
    }
}

/// The message of a comparison of fewer than two captures.
pub open spec fn too_few_captures() -> Seq<char> {
    "compare requires at least two captures"@
}

/// A comparison needs at least two captures.
pub fn check_comparison_count(count: usize) -> (result: Result<(), AppError>)
    ensures
        count < 2 ==> (result matches Err(error) && error.is_invalid_capture(too_few_captures())),
        count >= 2 ==> result is Ok,
{
    if count < 2 {
        return Err(AppError::InvalidCapture("compare requires at least two captures".to_owned()));
    }
    Ok(())
}


/// What one compared capture shows in each setting that a comparison warns
/// about when the captures differ in it.
#[derive(Debug, Clone)]
pub struct ComparedSetup {
    pub backend: String,
    pub receiving_interface: String,
    /// The graph's sample rate, as the report prints it.
    pub sample_rate: String,
    pub quantum: Option<u32>,
    pub pipewire_version: Option<String>,
    pub timestamp_method: String,
}

/// How a quantum reads in a comparison: its decimal digits, or "unknown".
pub open spec fn quantum_value(quantum: Option<u32>) -> Seq<char> {
    match quantum {
        Some(value) => decimal(value as nat),
        None => "unknown"@,
    }
}

/// How a PipeWire version reads in a comparison: the version, or "unknown".
pub open spec fn version_value(version: Option<String>) -> Seq<char> {
    match version {
        Some(text) => text@,
        None => "unknown"@,
    }
}

/// The distinct values that `setting` takes over `setups`.
pub open spec fn setting_members(
    setups: Seq<ComparedSetup>,
    setting: spec_fn(ComparedSetup) -> Seq<char>,
) -> Set<Seq<char>> {
    setups.map_values(setting).to_set()
}

/// `warnings` followed by the warning for `label`, if its values differ.
pub open spec fn with_warning(warnings: Seq<Seq<char>>, label: Seq<char>, values: Set<Seq<char>>) -> Seq<Seq<char>> {
    match difference_warning_spec(label, values) {
        Some(text) => warnings.push(text),
        None => warnings,
    }
}

/// The warnings of a comparison, one for each setting whose values differ
/// across the captures, in this order: backend, receiving interface, sample
/// rate, quantum, PipeWire version, timestamp method.
pub open spec fn setup_warnings_spec(setups: Seq<ComparedSetup>) -> Seq<Seq<char>> {
    let none: Seq<Seq<char>> = Seq::empty();
    let backend = with_warning(none, "backend"@, setting_members(setups, |setup: ComparedSetup| setup.backend@));
    let interface = with_warning(
        backend,
        "receiving interface"@,
        setting_members(setups, |setup: ComparedSetup| setup.receiving_interface@),
    );
    let rate = with_warning(
        interface,
        "sample rate"@,
        setting_members(setups, |setup: ComparedSetup| setup.sample_rate@),
    );
    let quantum = with_warning(
        rate,
        "quantum"@,
        setting_members(setups, |setup: ComparedSetup| quantum_value(setup.quantum)),
    );
    let version = with_warning(
        quantum,
        "PipeWire version"@,
        setting_members(setups, |setup: ComparedSetup| version_value(setup.pipewire_version)),
    );
    with_warning(
        version,
        "timestamp method"@,
        setting_members(setups, |setup: ComparedSetup| setup.timestamp_method@),
    )
}

/// Appends the warning for `label` when `values` differ.
fn push_warning(warnings: &mut Vec<String>, label: &str, values: &Vec<String>)
    ensures
        final(warnings)@.map_values(|text: String| text@) == with_warning(
            old(warnings)@.map_values(|text: String| text@),
            label@,
            values@.map_values(|text: String| text@).to_set(),
        ),
{
    let found = difference_warning(label, values);
    match found {
        Some(text) => {
            let ghost before = warnings@;
            warnings.push(text);
            assert(warnings@.map_values(|text: String| text@) =~= before.map_values(
                |text: String| text@,
            ).push(text@));
        },
        None => {},
    }
}

/// The warnings of a comparison of `setups`: for each setting whose values
/// differ, in the order of `setup_warnings_spec`, the distinct values sorted.
pub fn setup_warnings(setups: &Vec<ComparedSetup>) -> (warnings: Vec<String>)
    ensures
        warnings@.map_values(|text: String| text@) == setup_warnings_spec(setups@),
{
    let ghost backend_of = |setup: ComparedSetup| setup.backend@;
    let ghost interface_of = |setup: ComparedSetup| setup.receiving_interface@;
    let ghost rate_of = |setup: ComparedSetup| setup.sample_rate@;
    let ghost quantum_of = |setup: ComparedSetup| quantum_value(setup.quantum);
    let ghost version_of = |setup: ComparedSetup| version_value(setup.pipewire_version);
    let ghost method_of = |setup: ComparedSetup| setup.timestamp_method@;
    let mut backends: Vec<String> = Vec::new();
    let mut interfaces: Vec<String> = Vec::new();
    let mut rates: Vec<String> = Vec::new();
    let mut quanta: Vec<String> = Vec::new();
    let mut versions: Vec<String> = Vec::new();
    let mut methods: Vec<String> = Vec::new();
    let mut index: usize = 0;
    while index < setups.len()
        invariant
            index <= setups@.len(),
            backends@.map_values(|text: String| text@) == setups@.take(index as int).map_values(backend_of),
            interfaces@.map_values(|text: String| text@) == setups@.take(index as int).map_values(interface_of),
            rates@.map_values(|text: String| text@) == setups@.take(index as int).map_values(rate_of),
            quanta@.map_values(|text: String| text@) == setups@.take(index as int).map_values(quantum_of),
            versions@.map_values(|text: String| text@) == setups@.take(index as int).map_values(version_of),
            methods@.map_values(|text: String| text@) == setups@.take(index as int).map_values(method_of),
            backend_of == (|setup: ComparedSetup| setup.backend@),
            interface_of == (|setup: ComparedSetup| setup.receiving_interface@),
            rate_of == (|setup: ComparedSetup| setup.sample_rate@),
            quantum_of == (|setup: ComparedSetup| quantum_value(setup.quantum)),
            version_of == (|setup: ComparedSetup| version_value(setup.pipewire_version)),
            method_of == (|setup: ComparedSetup| setup.timestamp_method@),
        decreases setups@.len() - index,
    {
        let setup = &setups[index];
        let ghost taken = setups@.take(index as int);
        let ghost grown = setups@.take(index + 1);
        assert(grown =~= taken.push(setups@[index as int]));
        let ghost old_backends = backends@;
        let ghost old_interfaces = interfaces@;
        let ghost old_rates = rates@;
        let ghost old_quanta = quanta@;
        let ghost old_versions = versions@;
        let ghost old_methods = methods@;
        backends.push(setup.backend.clone());
        interfaces.push(setup.receiving_interface.clone());
        rates.push(setup.sample_rate.clone());
        let quantum = match setup.quantum {
            Some(value) => decimal_text(value as u64),
            None => String::from_str("unknown"),
        };
        proof {
            reveal_strlit("unknown");
        }
        quanta.push(quantum);
        let version = match &setup.pipewire_version {
            Some(text) => text.clone(),
            None => String::from_str("unknown"),
        };
        versions.push(version);
        methods.push(setup.timestamp_method.clone());
        assert(backends@.map_values(|text: String| text@) =~= old_backends.map_values(|text: String| text@).push(backend_of(setups@[index as int])));
        assert(interfaces@.map_values(|text: String| text@) =~= old_interfaces.map_values(|text: String| text@).push(interface_of(setups@[index as int])));
        assert(rates@.map_values(|text: String| text@) =~= old_rates.map_values(|text: String| text@).push(rate_of(setups@[index as int])));
        assert(quanta@.map_values(|text: String| text@) =~= old_quanta.map_values(|text: String| text@).push(quantum_of(setups@[index as int])));
        assert(versions@.map_values(|text: String| text@) =~= old_versions.map_values(|text: String| text@).push(version_of(setups@[index as int])));
        assert(methods@.map_values(|text: String| text@) =~= old_methods.map_values(|text: String| text@).push(method_of(setups@[index as int])));
        index = index + 1;
    }
    assert(setups@.take(setups@.len() as int) =~= setups@);
    let mut warnings: Vec<String> = Vec::new();
    assert(warnings@.map_values(|text: String| text@) =~= Seq::<Seq<char>>::empty());
    push_warning(&mut warnings, "backend", &backends);
    push_warning(&mut warnings, "receiving interface", &interfaces);
    push_warning(&mut warnings, "sample rate", &rates);
    push_warning(&mut warnings, "quantum", &quanta);
    push_warning(&mut warnings, "PipeWire version", &versions);
    push_warning(&mut warnings, "timestamp method", &methods);
    warnings
}


/// Two texts are the same, or the first sorts before the second.
pub open spec fn text_order() -> spec_fn(Seq<char>, Seq<char>) -> bool {
    |left: Seq<char>, right: Seq<char>| left == right || text_before(left, right)
}

/// Every finite set of texts has a sorted listing.
pub proof fn lemma_sorted_members_exist(members: Set<Seq<char>>)
    requires
        members.finite(),
    ensures
        sorted_texts(sorted_members(members)),
        sorted_members(members).to_set() == members,
{
    broadcast use vstd::seq_lib::group_to_multiset_ensures;

    lemma_listing_distinct(members);
    let listed = members.to_seq();
    let order = text_order();
    assert(vstd::relations::total_ordering(order)) by {
        assert forall|x: Seq<char>, y: Seq<char>| #[trigger] order(x, y) && #[trigger] order(y, x) implies x
            == y by {
            lemma_text_before_asymmetric(x, y);
        }
        assert forall|x: Seq<char>, y: Seq<char>, z: Seq<char>| #[trigger] order(x, y) && #[trigger] order(
            y,
            z,
        ) implies order(x, z) by {
            if x != y && y != z {
                lemma_text_before_transitive(x, y, z);
            }
        }
        assert forall|x: Seq<char>, y: Seq<char>| #[trigger] order(x, y) || #[trigger] order(y, x) by {
            if x != y {
                lemma_text_before_total(x, y);
            }
        }
    }
    let sorted = listed.sort_by(order);
    listed.lemma_sort_by_ensures(order);
    listed.lemma_multiset_has_no_duplicates();
    assert forall|x: Seq<char>| sorted.to_multiset().contains(x) implies sorted.to_multiset().count(x)
        == 1 by {
        assert(listed.to_multiset().contains(x));
    }
    sorted.lemma_multiset_has_no_duplicates_conv();
    assert forall|i: int, j: int| 0 <= i < j < sorted.len() implies text_before(sorted[i], sorted[j]) by {
        assert(order(sorted[i], sorted[j]));
    }
    assert forall|x: Seq<char>| sorted.to_set().contains(x) <==> members.contains(x) by {
        assert(sorted.contains(x) <==> sorted.to_multiset().count(x) > 0);
        assert(listed.contains(x) <==> listed.to_multiset().count(x) > 0);
        assert(listed.to_set().contains(x) <==> members.contains(x));
    }
    assert(sorted.to_set() =~= members);
    assert(sorted_texts(sorted) && sorted.to_set() == members);
}

/// How a warning about `label` begins.
pub open spec fn warning_prefix(label: Seq<char>) -> Seq<char> {
    "captures differ in "@ + label + ": "@
}

/// Some warning of `warnings` is about `label`.
pub open spec fn warns_about(warnings: Seq<Seq<char>>, label: Seq<char>) -> bool {
    exists|k: int|
        0 <= k < warnings.len() && (#[trigger] warnings[k]).len() >= warning_prefix(label).len()
            && warnings[k].subrange(0, warning_prefix(label).len() as int) == warning_prefix(label)
}

/// Two of `setups` differ in `setting`.
pub open spec fn setups_differ(setups: Seq<ComparedSetup>, setting: spec_fn(ComparedSetup) -> Seq<char>) -> bool {
    exists|i: int, j: int|
        0 <= i < setups.len() && 0 <= j < setups.len() && #[trigger] setting(setups[i]) != #[trigger] setting(
            setups[j],
        )
}

/// A warning about `label` is given exactly when `setting` differs between
/// two setups, and it begins as a warning about `label`.
proof fn lemma_difference_warned(
    label: Seq<char>,
    setups: Seq<ComparedSetup>,
    setting: spec_fn(ComparedSetup) -> Seq<char>,
)
    ensures
        difference_warning_spec(label, setting_members(setups, setting)) is Some <==> setups_differ(
            setups,
            setting,
        ),
        difference_warning_spec(label, setting_members(setups, setting)) matches Some(text) ==> (
        text.len() >= warning_prefix(label).len() && text.subrange(
            0,
            warning_prefix(label).len() as int,
        ) == warning_prefix(label)),
{
    let values = setups.map_values(setting);
    let members = setting_members(setups, setting);
    vstd::seq_lib::seq_to_set_is_finite(values);
    lemma_sorted_members_exist(members);
    let sorted = sorted_members(members);
    if sorted.len() > 1 {
        lemma_text_before_asymmetric(sorted[0], sorted[0]);
        assert(text_before(sorted[0], sorted[1]));
        assert(sorted.to_set().contains(sorted[0]) && sorted.to_set().contains(sorted[1]));
        let i = choose|i: int| 0 <= i < values.len() && values[i] == sorted[0];
        let j = choose|j: int| 0 <= j < values.len() && values[j] == sorted[1];
        assert(setting(setups[i]) != setting(setups[j]));
        let text = "captures differ in "@ + label + ": "@ + joined(sorted, ", "@);
        assert(text.subrange(0, warning_prefix(label).len() as int) =~= warning_prefix(label));
    } else if setups_differ(setups, setting) {
        let (i, j) = choose|i: int, j: int|
            0 <= i < setups.len() && 0 <= j < setups.len() && #[trigger] setting(setups[i])
                != #[trigger] setting(setups[j]);
        assert(values[i] == setting(setups[i]) && values[j] == setting(setups[j]));
        assert(members.contains(values[i]) && members.contains(values[j]));
        let a = choose|a: int| 0 <= a < sorted.len() && sorted[a] == values[i];
        let b = choose|b: int| 0 <= b < sorted.len() && sorted[b] == values[j];
    }
}

/// Adding the warning for `label` adds a warning about `label` exactly when
/// its setting differs, and no warning about a label that starts otherwise.
proof fn lemma_with_warning(
    warnings: Seq<Seq<char>>,
    label: Seq<char>,
    setups: Seq<ComparedSetup>,
    setting: spec_fn(ComparedSetup) -> Seq<char>,
)
    requires
        label.len() > 0,
    ensures
        with_warning(warnings, label, setting_members(setups, setting)).len() == warnings.len() + if setups_differ(
            setups,
            setting,
        ) {
            1int
        } else {
            0int
        },
        forall|other: Seq<char>|
            other.len() > 0 && (other == label || other[0] != label[0]) ==> (#[trigger] warns_about(
                with_warning(warnings, label, setting_members(setups, setting)),
                other,
            ) <==> warns_about(warnings, other) || (other == label && setups_differ(setups, setting))),
{
    reveal_strlit("captures differ in ");
    reveal_strlit(": ");
    lemma_difference_warned(label, setups, setting);
    let after = with_warning(warnings, label, setting_members(setups, setting));
    assert forall|other: Seq<char>|
        other.len() > 0 && (other == label || other[0] != label[0]) implies (#[trigger] warns_about(
        after,
        other,
    ) <==> warns_about(warnings, other) || (other == label && setups_differ(setups, setting))) by {
        match difference_warning_spec(label, setting_members(setups, setting)) {
            Some(text) => {
                assert(after == warnings.push(text));
                let p = warning_prefix(other);
                if warns_about(after, other) {
                    let k = choose|k: int|
                        0 <= k < after.len() && (#[trigger] after[k]).len() >= p.len()
                            && after[k].subrange(0, p.len() as int) == p;
                    if k < warnings.len() {
                        assert(warnings[k] == after[k]);
                    } else if other != label {
                        assert(text.subrange(0, warning_prefix(label).len() as int)[19] == label[0]);
                        assert(after[k].subrange(0, p.len() as int)[19] == other[0]);
                    }
                }
                if warns_about(warnings, other) {
                    let k = choose|k: int|
                        0 <= k < warnings.len() && (#[trigger] warnings[k]).len() >= p.len()
                            && warnings[k].subrange(0, p.len() as int) == p;
                    assert(after[k] == warnings[k]);
                }
                if other == label {
                    assert(after[warnings.len() as int] == text);
                }
            },
            None => {},
        }
    }
}

/// A comparison warns about each setting exactly when two of the setups
/// differ in it, and gives no other warning: one warning per differing
/// setting among backend, receiving interface, sample rate, quantum,
/// PipeWire version and timestamp method.
pub proof fn law_setup_warnings_name_each_differing_setting(setups: Seq<ComparedSetup>)
    ensures
        ({
            let warnings = setup_warnings_spec(setups);
            let backend = setups_differ(setups, |setup: ComparedSetup| setup.backend@);
            let interface = setups_differ(setups, |setup: ComparedSetup| setup.receiving_interface@);
            let rate = setups_differ(setups, |setup: ComparedSetup| setup.sample_rate@);
            let quantum = setups_differ(setups, |setup: ComparedSetup| quantum_value(setup.quantum));
            let version = setups_differ(
                setups,
                |setup: ComparedSetup| version_value(setup.pipewire_version),
            );
            let method = setups_differ(setups, |setup: ComparedSetup| setup.timestamp_method@);
            &&& warns_about(warnings, "backend"@) <==> backend
            &&& warns_about(warnings, "receiving interface"@) <==> interface
            &&& warns_about(warnings, "sample rate"@) <==> rate
            &&& warns_about(warnings, "quantum"@) <==> quantum
            &&& warns_about(warnings, "PipeWire version"@) <==> version
            &&& warns_about(warnings, "timestamp method"@) <==> method
            &&& warnings.len() == (if backend { 1int } else { 0int }) + (if interface {
                1int
            } else {
                0int
            }) + (if rate { 1int } else { 0int }) + (if quantum { 1int } else { 0int }) + (if version {
                1int
            } else {
                0int
            }) + (if method { 1int } else { 0int })
        }),
{
    reveal_strlit("backend");
    reveal_strlit("receiving interface");
    reveal_strlit("sample rate");
    reveal_strlit("quantum");
    reveal_strlit("PipeWire version");
    reveal_strlit("timestamp method");
    let none: Seq<Seq<char>> = Seq::empty();
    let backend_of = |setup: ComparedSetup| setup.backend@;
    let interface_of = |setup: ComparedSetup| setup.receiving_interface@;
    let rate_of = |setup: ComparedSetup| setup.sample_rate@;
    let quantum_of = |setup: ComparedSetup| quantum_value(setup.quantum);
    let version_of = |setup: ComparedSetup| version_value(setup.pipewire_version);
    let method_of = |setup: ComparedSetup| setup.timestamp_method@;
    let w1 = with_warning(none, "backend"@, setting_members(setups, backend_of));
    let w2 = with_warning(w1, "receiving interface"@, setting_members(setups, interface_of));
    let w3 = with_warning(w2, "sample rate"@, setting_members(setups, rate_of));
    let w4 = with_warning(w3, "quantum"@, setting_members(setups, quantum_of));
    let w5 = with_warning(w4, "PipeWire version"@, setting_members(setups, version_of));
    let w6 = with_warning(w5, "timestamp method"@, setting_members(setups, method_of));
    assert(w6 == setup_warnings_spec(setups));
    lemma_with_warning(none, "backend"@, setups, backend_of);
    lemma_with_warning(w1, "receiving interface"@, setups, interface_of);
    lemma_with_warning(w2, "sample rate"@, setups, rate_of);
    lemma_with_warning(w3, "quantum"@, setups, quantum_of);
    lemma_with_warning(w4, "PipeWire version"@, setups, version_of);
    lemma_with_warning(w5, "timestamp method"@, setups, method_of);
    let labels = seq![
        "backend"@,
        "receiving interface"@,
        "sample rate"@,
        "quantum"@,
        "PipeWire version"@,
        "timestamp method"@,
    ];
    assert(!warns_about(none, labels[0]) && !warns_about(none, labels[1]) && !warns_about(none, labels[2])
        && !warns_about(none, labels[3]) && !warns_about(none, labels[4]) && !warns_about(none, labels[5]));
    assert(warns_about(w6, labels[0]) == warns_about(w5, labels[0]));
    assert(warns_about(w5, labels[0]) == warns_about(w4, labels[0]));
    assert(warns_about(w4, labels[0]) == warns_about(w3, labels[0]));
    assert(warns_about(w3, labels[0]) == warns_about(w2, labels[0]));
    assert(warns_about(w2, labels[0]) == warns_about(w1, labels[0]));
    assert(warns_about(w1, labels[0]) == setups_differ(setups, backend_of));
    assert(warns_about(w6, labels[1]) == warns_about(w5, labels[1]));
    assert(warns_about(w5, labels[1]) == warns_about(w4, labels[1]));
    assert(warns_about(w4, labels[1]) == warns_about(w3, labels[1]));
    assert(warns_about(w3, labels[1]) == warns_about(w2, labels[1]));
    assert(warns_about(w2, labels[1]) == (warns_about(w1, labels[1]) || setups_differ(setups, interface_of)));
    assert(warns_about(w1, labels[1]) == warns_about(none, labels[1]));
    assert(warns_about(w6, labels[2]) == warns_about(w5, labels[2]));
    assert(warns_about(w5, labels[2]) == warns_about(w4, labels[2]));
    assert(warns_about(w4, labels[2]) == warns_about(w3, labels[2]));
    assert(warns_about(w3, labels[2]) == (warns_about(w2, labels[2]) || setups_differ(setups, rate_of)));
    assert(warns_about(w2, labels[2]) == warns_about(w1, labels[2]));
    assert(warns_about(w1, labels[2]) == warns_about(none, labels[2]));
    assert(warns_about(w6, labels[3]) == warns_about(w5, labels[3]));
    assert(warns_about(w5, labels[3]) == warns_about(w4, labels[3]));
    assert(warns_about(w4, labels[3]) == (warns_about(w3, labels[3]) || setups_differ(setups, quantum_of)));
    assert(warns_about(w3, labels[3]) == warns_about(w2, labels[3]));
    assert(warns_about(w2, labels[3]) == warns_about(w1, labels[3]));
    assert(warns_about(w1, labels[3]) == warns_about(none, labels[3]));
    assert(warns_about(w6, labels[4]) == warns_about(w5, labels[4]));
    assert(warns_about(w5, labels[4]) == (warns_about(w4, labels[4]) || setups_differ(setups, version_of)));
    assert(warns_about(w4, labels[4]) == warns_about(w3, labels[4]));
    assert(warns_about(w3, labels[4]) == warns_about(w2, labels[4]));
    assert(warns_about(w2, labels[4]) == warns_about(w1, labels[4]));
    assert(warns_about(w1, labels[4]) == warns_about(none, labels[4]));
    assert(warns_about(w6, labels[5]) == (warns_about(w5, labels[5]) || setups_differ(setups, method_of)));
    assert(warns_about(w5, labels[5]) == warns_about(w4, labels[5]));
    assert(warns_about(w4, labels[5]) == warns_about(w3, labels[5]));
    assert(warns_about(w3, labels[5]) == warns_about(w2, labels[5]));
    assert(warns_about(w2, labels[5]) == warns_about(w1, labels[5]));
    assert(warns_about(w1, labels[5]) == warns_about(none, labels[5]));
}

} // verus!
