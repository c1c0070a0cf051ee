use vstd::prelude::*;

use crate::flow::{fits, next, rank, FlowEnd, ServiceAction, ServiceAnswer, Stage, SERVICE_RUNNING_STATE};
use crate::order::{
    lemma_text_less_irreflexive, lemma_text_less_transitive,
    strictly_increasing, text_less,
};
use crate::panel::{appends_new_paths, status_after_answer, toggled, unselected};
use crate::screen::shows_banner;
use crate::status::ServiceStatus;
use crate::paths::{data_file, has_verbatim_prefix, program_folder, service_executable};
use crate::store::{
    ascii_words, is_ascii_space, joined_lines, listed_paths, trimmed, words_after,
};

verus! {

/// A list in which no entry occurs twice.
pub open spec fn no_repeats(s: Seq<Seq<char>>) -> bool {
    forall|i: int, j: int| 0 <= i < j < s.len() ==> s[i] != s[j]
}

/// A path that the data file keeps as it is: not empty, without ASCII white
/// space inside, and without white space at its ends.
pub open spec fn storable(p: Seq<char>) -> bool {
    &&& p.len() > 0
    &&& forall|k: int| 0 <= k < p.len() ==> !is_ascii_space(#[trigger] p[k])
    &&& trimmed(p) == p
}

/// Ticking the same check box twice leaves the selection as it was.
pub proof fn law_toggle_twice(selected: Set<usize>, index: usize)
    ensures
        toggled(toggled(selected, index), index) == selected,
{
    assert(toggled(toggled(selected, index), index) =~= selected);
}

/// Adding files keeps the files that were listed, in their places, and
/// lists every added path afterwards.
pub proof fn law_add_keeps_and_lists(old: Seq<Seq<char>>, new: Seq<Seq<char>>, result: Seq<Seq<char>>)
    requires
        appends_new_paths(old, new, result),
    ensures
        forall|i: int| 0 <= i < old.len() ==> result[i] == old[i],
        forall|p: Seq<char>| new.contains(p) ==> result.contains(p),
{
    assert forall|i: int| 0 <= i < old.len() implies result[i] == old[i] by {
        assert(result.take(old.len() as int)[i] == result[i]);
    }
    assert forall|p: Seq<char>| new.contains(p) implies result.contains(p) by {
        if old.contains(p) {
            let k = choose|k: int| 0 <= k < old.len() && old[k] == p;
            assert(result.take(old.len() as int)[k] == p);
        } else {
            assert(result.skip(old.len() as int).contains(p));
            let k = choose|k: int|
                0 <= k < result.skip(old.len() as int).len() && result.skip(old.len() as int)[k]
                    == p;
            assert(result[old.len() + k] == p);
        }
    }
}

/// Adding files never lists a path twice when the list had no repetition.
pub proof fn law_add_no_repeats(old: Seq<Seq<char>>, new: Seq<Seq<char>>, result: Seq<Seq<char>>)
    requires
        appends_new_paths(old, new, result),
        no_repeats(old),
    ensures
        no_repeats(result),
{
    let n = old.len() as int;
    let tail = result.skip(n);
    assert forall|i: int, j: int| 0 <= i < j < result.len() implies result[i] != result[j] by {
        if j < n {
            assert(result.take(n)[i] == old[i] && result.take(n)[j] == old[j]);
        } else if i < n {
            assert(result.take(n)[i] == old[i]);
            assert(tail[j - n] == result[j]);
            assert(tail.contains(result[j]));
            assert(old.contains(old[i]));
        } else {
            assert(tail[i - n] == result[i] && tail[j - n] == result[j]);
            assert(text_less(tail[i - n], tail[j - n]));
            lemma_text_less_irreflexive(tail[i - n]);
        }
    }
}

/// Adding the same paths a second time changes nothing.
pub proof fn law_add_twice(
    old: Seq<Seq<char>>,
    new: Seq<Seq<char>>,
    once: Seq<Seq<char>>,
    twice: Seq<Seq<char>>,
)
    requires
        appends_new_paths(old, new, once),
        appends_new_paths(once, new, twice),
    ensures
        twice == once,
{
    law_add_keeps_and_lists(old, new, once);
    let tail = twice.skip(once.len() as int);
    if tail.len() > 0 {
        assert(tail.contains(tail[0]));
    }
    assert(twice =~= twice.take(once.len() as int) + tail);
}

proof fn lemma_increasing_same_elements(a: Seq<Seq<char>>, b: Seq<Seq<char>>)
    requires
        strictly_increasing(a),
        strictly_increasing(b),
        forall|p: Seq<char>| a.contains(p) <==> b.contains(p),
    ensures
        a == b,
    decreases a.len(),
{
    if a.len() == 0 {
        if b.len() > 0 {
            assert(b.contains(b[0]));
        }
        assert(a =~= b);
    } else {
        assert(a.contains(a[0]));
        assert(b.len() > 0);
        assert(b.contains(b[0]));
        let ka = choose|k: int| 0 <= k < a.len() && a[k] == b[0];
        let kb = choose|k: int| 0 <= k < b.len() && b[k] == a[0];
        if ka > 0 {
            assert(text_less(a[0], a[ka]));
        }
        if kb > 0 {
            assert(text_less(b[0], b[kb]));
        }
        if ka > 0 && kb > 0 {
            lemma_text_less_transitive(a[0], b[0], a[0]);
            lemma_text_less_irreflexive(a[0]);
        }
        assert(a[0] == b[0]);
        let a1 = a.drop_first();
        let b1 = b.drop_first();
        assert forall|p: Seq<char>| a1.contains(p) <==> b1.contains(p) by {
            if a1.contains(p) {
                let k = choose|k: int| 0 <= k < a1.len() && a1[k] == p;
                assert(a[k + 1] == p);
                assert(text_less(a[0], a[k + 1]));
                lemma_text_less_irreflexive(p);
                assert(a.contains(p));
                let m = choose|m: int| 0 <= m < b.len() && b[m] == p;
                assert(m != 0);
                assert(b1[m - 1] == p);
            }
            if b1.contains(p) {
                let k = choose|k: int| 0 <= k < b1.len() && b1[k] == p;
                assert(b[k + 1] == p);
                assert(text_less(b[0], b[k + 1]));
                lemma_text_less_irreflexive(p);
                assert(b.contains(p));
                let m = choose|m: int| 0 <= m < a.len() && a[m] == p;
                assert(m != 0);
                assert(a1[m - 1] == p);
            }
        }
        assert forall|i: int, j: int| 0 <= i < j < a1.len() implies text_less(
            #[trigger] a1[i],
            #[trigger] a1[j],
        ) by {
            assert(a1[i] == a[i + 1] && a1[j] == a[j + 1]);
        }
        assert forall|i: int, j: int| 0 <= i < j < b1.len() implies text_less(
            #[trigger] b1[i],
            #[trigger] b1[j],
        ) by {
            assert(b1[i] == b[i + 1] && b1[j] == b[j + 1]);
        }
        lemma_increasing_same_elements(a1, b1);
        assert(a =~= seq![a[0]] + a1);
        assert(b =~= seq![b[0]] + b1);
    }
}

/// What adding paths gives is determined by the list and the paths.
pub proof fn law_add_determined(
    old: Seq<Seq<char>>,
    new: Seq<Seq<char>>,
    r1: Seq<Seq<char>>,
    r2: Seq<Seq<char>>,
)
    requires
        appends_new_paths(old, new, r1),
        appends_new_paths(old, new, r2),
    ensures
        r1 == r2,
{
    let n = old.len() as int;
    lemma_increasing_same_elements(r1.skip(n), r2.skip(n));
    assert(r1 =~= r1.take(n) + r1.skip(n));
    assert(r2 =~= r2.take(n) + r2.skip(n));
}

proof fn lemma_unselected_within(files: Seq<Seq<char>>, sel: Set<usize>)
    ensures
        forall|p: Seq<char>| #[trigger] unselected(files, sel).contains(p) ==> files.contains(p),
        unselected(files, sel).len() <= files.len(),
    decreases files.len(),
{
    if files.len() > 0 {
        lemma_unselected_within(files.drop_last(), sel);
        assert forall|p: Seq<char>| unselected(files, sel).contains(p) implies files.contains(p) by {
            let rest = unselected(files.drop_last(), sel);
            let k = choose|k: int| 0 <= k < unselected(files, sel).len() && unselected(files, sel)[k] == p;
            if k < rest.len() {
                assert(rest[k] == p);
                assert(rest.contains(p));
                let m = choose|m: int| 0 <= m < files.drop_last().len() && files.drop_last()[m] == p;
                assert(files[m] == p);
            } else {
                assert(files[files.len() - 1] == p);
            }
        }
    }
}

/// Removing the selected files never lists a path twice when the list had
/// no repetition.
pub proof fn law_remove_no_repeats(files: Seq<Seq<char>>, selected: Set<usize>)
    requires
        no_repeats(files),
    ensures
        no_repeats(unselected(files, selected)),
    decreases files.len(),
{
    if files.len() > 0 {
        let front = files.drop_last();
        assert forall|i: int, j: int| 0 <= i < j < front.len() implies front[i] != front[j] by {
            assert(front[i] == files[i] && front[j] == files[j]);
        }
        law_remove_no_repeats(front, selected);
        lemma_unselected_within(front, selected);
        let rest = unselected(front, selected);
        if !selected.contains((files.len() - 1) as usize) {
            let r = rest.push(files.last());
            assert forall|i: int, j: int| 0 <= i < j < r.len() implies r[i] != r[j] by {
                if j == rest.len() {
                    assert(rest.contains(r[i]));
                    let m = choose|m: int| 0 <= m < front.len() && front[m] == r[i];
                    assert(files[m] == r[i]);
                } else {
                    assert(r[i] == rest[i] && r[j] == rest[j]);
                }
            }
        }
    }
}

/// Removing with nothing selected keeps the list as it is.
pub proof fn law_remove_nothing(files: Seq<Seq<char>>)
    ensures
        unselected(files, Set::<usize>::empty()) == files,
    decreases files.len(),
{
    if files.len() > 0 {
        law_remove_nothing(files.drop_last());
        assert(files.drop_last().push(files.last()) =~= files);
    }
}

proof fn lemma_words_after_word(t: Seq<char>, s: Seq<char>, cur: Seq<char>)
    requires
        forall|k: int| 0 <= k < t.len() ==> !is_ascii_space(#[trigger] t[k]),
    ensures
        words_after(t + s, cur) == words_after(s, cur + t),
    decreases t.len(),
{
    if t.len() == 0 {
        assert(t + s =~= s);
        assert(cur + t =~= cur);
    } else {
        assert((t + s)[0] == t[0]);
        assert((t + s).drop_first() =~= t.drop_first() + s);
        assert forall|k: int| 0 <= k < t.drop_first().len() implies !is_ascii_space(
            #[trigger] t.drop_first()[k],
        ) by {
            assert(t.drop_first()[k] == t[k + 1]);
        }
        lemma_words_after_word(t.drop_first(), s, cur.push(t[0]));
        assert(cur.push(t[0]) + t.drop_first() =~= cur + t);
    }
}

proof fn lemma_joined_front(paths: Seq<Seq<char>>)
    requires
        paths.len() >= 2,
    ensures
        joined_lines(paths) == paths[0] + seq!['\n'] + joined_lines(paths.drop_first()),
    decreases paths.len(),
{
    if paths.len() == 2 {
        assert(paths.drop_first().len() == 1);
        assert(paths.drop_last().len() == 1);
        assert(joined_lines(paths.drop_last()) == paths[0]);
        assert(joined_lines(paths.drop_first()) == paths[1]);
    } else {
        lemma_joined_front(paths.drop_last());
        assert(paths.drop_last().drop_first() =~= paths.drop_first().drop_last());
        assert(paths.drop_first().last() == paths.last());
        assert(paths.drop_last()[0] == paths[0]);
    }
}

proof fn lemma_words_of_joined(paths: Seq<Seq<char>>)
    requires
        forall|i: int| 0 <= i < paths.len() ==> storable(#[trigger] paths[i]),
    ensures
        ascii_words(joined_lines(paths)) == paths,
    decreases paths.len(),
{
    if paths.len() == 0 {
        assert(ascii_words(joined_lines(paths)) =~= paths);
    } else if paths.len() == 1 {
        assert(storable(paths[0]));
        lemma_words_after_word(paths[0], seq![], seq![]);
        assert(paths[0] + Seq::<char>::empty() =~= paths[0]);
        assert(Seq::<char>::empty() + paths[0] =~= paths[0]);
        assert(joined_lines(paths) == paths[0]);
        assert(ascii_words(joined_lines(paths)) =~= paths);
    } else {
        let rest = paths.drop_first();
        assert forall|i: int| 0 <= i < rest.len() implies storable(#[trigger] rest[i]) by {
            assert(rest[i] == paths[i + 1]);
        }
        lemma_words_of_joined(rest);
        lemma_joined_front(paths);
        assert(storable(paths[0]));
        let tail = seq!['\n'] + joined_lines(rest);
        assert(paths[0] + seq!['\n'] + joined_lines(rest) =~= paths[0] + tail);
        lemma_words_after_word(paths[0], tail, seq![]);
        assert(Seq::<char>::empty() + paths[0] =~= paths[0]);
        assert(tail[0] == '\n');
        assert(tail.drop_first() =~= joined_lines(rest));
        assert(words_after(tail, paths[0]) == seq![paths[0]] + words_after(
            joined_lines(rest),
            seq![],
        ));
        assert(seq![paths[0]] + rest =~= paths);
    }
}

/// What the data file lists is what was written to it, for paths that it
/// can keep: reading the contents that `serialize_locked_files` writes
/// gives the same paths back.
pub proof fn law_data_file_round_trip(paths: Seq<Seq<char>>)
    requires
        forall|i: int| 0 <= i < paths.len() ==> storable(#[trigger] paths[i]),
    ensures
        listed_paths(joined_lines(paths)) == paths,
{
    lemma_words_of_joined(paths);
    assert forall|i: int| 0 <= i < paths.len() implies trimmed(#[trigger] paths[i]) == paths[i] by {
        assert(storable(paths[i]));
    }
    assert(listed_paths(joined_lines(paths)) =~= paths);
}

/// The service executable and the data file lie in the program folder, for
/// a program folder without a verbatim prefix.
pub proof fn law_files_in_program_folder(program_data: Seq<char>)
    requires
        !has_verbatim_prefix(program_folder(program_data)),
    ensures
        service_executable(program_data) == program_folder(program_data) + seq!['\\']
            + "lockdown-service.exe"@,
        data_file(program_data) == program_folder(program_data) + seq!['\\']
            + "locked_files.txt"@,
{
    reveal_strlit("Lockdown.Service");
    let f = program_folder(program_data);
    assert(f.last() == 'e');
    assert(f.len() > 2);
}

/// Every flow ends: each answer takes the flow to a stage of lower rank, so
/// no flow takes in more answers than the rank of its first stage.
pub proof fn law_flow_progresses(stage: Stage, answer: ServiceAnswer)
    requires
        fits(stage, answer),
    ensures
        rank(next(stage, answer).0) < rank(stage),
        next(stage, answer).0 == Stage::Over <==> next(stage, answer).1 is Finish,
{
}

/// A failed piece of work ends the flow at once, with that failure.
pub proof fn law_failure_ends_flow(stage: Stage, error: String)
    requires
        stage != Stage::Over,
    ensures
        next(stage, ServiceAnswer::Failed(error)) == (Stage::Over, ServiceAction::Finish(
            FlowEnd::Failed(error),
        )),
{
}

/// The running query says that the service runs only when the service is
/// registered and its state is `SERVICE_RUNNING`.
pub proof fn law_running_answer(stage: Stage, answer: ServiceAnswer)
    requires
        stage == Stage::QueryExists || stage == Stage::QueryState,
        fits(stage, answer),
        next(stage, answer).1 matches ServiceAction::Finish(FlowEnd::Answer(true)),
    ensures
        stage == Stage::QueryState,
        answer == ServiceAnswer::State(SERVICE_RUNNING_STATE),
{
}

/// The service is started only when it was found registered and not
/// running, and is created only when no registration is left.
pub proof fn law_start_and_create_guarded(stage: Stage, answer: ServiceAnswer)
    requires
        fits(stage, answer),
    ensures
        next(stage, answer).1 is SendStart ==> stage == Stage::StartExists && answer
            == ServiceAnswer::Flag(true),
        next(stage, answer).0 == Stage::StartExists ==> (stage == Stage::RunExists && answer
            == ServiceAnswer::Flag(false)) || (stage == Stage::RunState && answer
            is State && answer->State_0 != SERVICE_RUNNING_STATE),
        next(stage, answer).1 is Create ==> (answer == ServiceAnswer::Flag(false) && (stage
            == Stage::OldRegistration || stage == Stage::UnregisterExists)) || (stage
            == Stage::Deleted && answer is Done),
{
}

/// Ticking a check box flips that box alone: the ticked index changes its
/// membership, every other index keeps it.
pub proof fn law_toggle_flips_one(selected: Set<usize>, index: usize)
    ensures
        toggled(selected, index).contains(index) == !selected.contains(index),
        forall|j: usize| j != index ==> (#[trigger] toggled(selected, index).contains(j)
            == selected.contains(j)),
{
}

/// A selection that holds no index of the list removes nothing.
pub proof fn law_remove_unlisted(files: Seq<Seq<char>>, selected: Set<usize>)
    requires
        forall|i: usize| #[trigger] selected.contains(i) ==> i >= files.len(),
    ensures
        unselected(files, selected) == files,
    decreases files.len(),
{
    if files.len() > 0 {
        law_remove_unlisted(files.drop_last(), selected);
        assert(files.drop_last().push(files.last()) =~= files);
    }
}

/// Removing the one selected file `k` leaves the list without it: the files
/// before it and after it stay, in order.
pub proof fn law_remove_one(files: Seq<Seq<char>>, k: usize)
    requires
        k < files.len() <= usize::MAX,
    ensures
        unselected(files, set![k]) == files.remove(k as int),
    decreases files.len(),
{
    let front = files.drop_last();
    let last = (files.len() - 1) as usize;
    if k == files.len() - 1 {
        assert(set![k].contains(last));
        law_remove_unlisted(front, set![k]);
        assert(files.remove(k as int) =~= front);
    } else {
        assert(!set![k].contains(last));
        law_remove_one(front, k);
        assert(front.remove(k as int).push(files.last()) =~= files.remove(k as int));
    }
}

/// The indices below `n` that `selected` does not hold, in increasing order.
pub open spec fn unselected_indices(n: nat, selected: Set<usize>) -> Seq<int> {
    Seq::new(n, |i: int| i).filter(|i: int| !selected.contains(i as usize))
}

proof fn lemma_filtered_bound(m: nat, selected: Set<usize>)
    ensures
        forall|j: int|
            0 <= j < unselected_indices(m, selected).len() ==> 0 <= #[trigger] unselected_indices(
                m,
                selected,
            )[j] < m,
    decreases m,
{
    reveal_with_fuel(Seq::filter, 1);
    let pred = |i: int| !selected.contains(i as usize);
    let all = Seq::new(m, |i: int| i);
    if m > 0 {
        lemma_filtered_bound((m - 1) as nat, selected);
        assert(all.drop_last() =~= Seq::new((m - 1) as nat, |i: int| i));
        let sub = unselected_indices((m - 1) as nat, selected);
        assert(all.filter(pred) == (if pred(m - 1) {
            sub.push(m - 1)
        } else {
            sub
        }));
    } else {
        assert(all =~= Seq::<int>::empty());
    }
}

/// Removing keeps exactly the files at the indices that are not selected,
/// in their order.
pub proof fn law_remove_keeps_unselected(files: Seq<Seq<char>>, selected: Set<usize>)
    ensures
        unselected(files, selected) == unselected_indices(files.len(), selected).map_values(
            |i: int| files[i],
        ),
    decreases files.len(),
{
    broadcast use vstd::seq_lib::group_filter_ensures;

    let n = files.len();
    let pred = |i: int| !selected.contains(i as usize);
    reveal_with_fuel(Seq::filter, 1);
    if n == 0 {
        assert(Seq::new(0, |i: int| i) =~= Seq::<int>::empty());
        assert(unselected_indices(0, selected).map_values(|i: int| files[i]) =~= files);
    } else {
        let front = files.drop_last();
        law_remove_keeps_unselected(front, selected);
        let all = Seq::new(n, |i: int| i);
        assert(all.drop_last() =~= Seq::new((n - 1) as nat, |i: int| i));
        assert(all.last() == n - 1);
        let sub = unselected_indices((n - 1) as nat, selected);
        assert(all.filter(pred) == (if pred(n - 1) {
            sub.push(n - 1)
        } else {
            sub
        }));
        lemma_filtered_bound((n - 1) as nat, selected);
        assert(sub.map_values(|i: int| front[i]) =~= sub.map_values(|i: int| files[i]));
        if pred(n - 1) {
            assert(sub.push(n - 1).map_values(|i: int| files[i]) =~= sub.map_values(
                |i: int| files[i],
            ).push(files.last()));
        }
    }
}

proof fn lemma_words_split(a: Seq<char>, c: char, b: Seq<char>, cur: Seq<char>)
    requires
        is_ascii_space(c),
    ensures
        words_after(a + seq![c] + b, cur) == words_after(a, cur) + words_after(b, seq![]),
    decreases a.len(),
{
    let s = a + seq![c] + b;
    let wb = words_after(b, seq![]);
    if a.len() == 0 {
        assert(s[0] == c);
        assert(s.drop_first() =~= b);
        if cur.len() == 0 {
            assert(cur =~= Seq::<char>::empty());
            assert(words_after(s, cur) == words_after(b, cur));
            assert(words_after(a, cur) =~= Seq::<Seq<char>>::empty());
            assert(wb =~= Seq::<Seq<char>>::empty() + wb);
            assert(words_after(s, cur) == words_after(a, cur) + wb);
        } else {
            assert(words_after(s, cur) == seq![cur] + wb);
            assert(words_after(a, cur) == seq![cur]);
            assert(words_after(s, cur) == words_after(a, cur) + wb);
        }
    } else {
        let a1 = a.drop_first();
        assert(s[0] == a[0]);
        assert(s.drop_first() =~= a1 + seq![c] + b);
        if is_ascii_space(a[0]) {
            if cur.len() == 0 {
                lemma_words_split(a1, c, b, cur);
                assert(words_after(s, cur) == words_after(a1 + seq![c] + b, cur));
                assert(words_after(a, cur) == words_after(a1, cur));
                assert(words_after(s, cur) == words_after(a, cur) + wb);
            } else {
                lemma_words_split(a1, c, b, seq![]);
                assert(words_after(s, cur) == seq![cur] + words_after(a1 + seq![c] + b, seq![]));
                assert(words_after(a, cur) == seq![cur] + words_after(a1, seq![]));
                assert(seq![cur] + (words_after(a1, seq![]) + wb) =~= seq![cur] + words_after(
                    a1,
                    seq![],
                ) + wb);
                assert(words_after(s, cur) == words_after(a, cur) + wb);
            }
        } else {
            lemma_words_split(a1, c, b, cur.push(a[0]));
            assert(words_after(s, cur) == words_after(a1 + seq![c] + b, cur.push(a[0])));
            assert(words_after(a, cur) == words_after(a1, cur.push(a[0])));
            assert(words_after(s, cur) == words_after(a, cur) + wb);
        }
    }
}

/// ASCII white space separates: the paths of two stretches of contents with
/// white space between them are the paths of the first, then those of the
/// second.
pub proof fn law_parse_splits_at_space(a: Seq<char>, c: char, b: Seq<char>)
    requires
        is_ascii_space(c),
    ensures
        listed_paths(a + seq![c] + b) == listed_paths(a) + listed_paths(b),
{
    lemma_words_split(a, c, b, seq![]);
    assert(ascii_words(a + seq![c] + b).map_values(|w: Seq<char>| trimmed(w)) =~= ascii_words(
        a,
    ).map_values(|w: Seq<char>| trimmed(w)) + ascii_words(b).map_values(
        |w: Seq<char>| trimmed(w),
    ));
}

/// White space at the end of the contents, such as the line feed after
/// the last line, changes nothing.
pub proof fn law_parse_ignores_trailing_space(contents: Seq<char>, c: char)
    requires
        is_ascii_space(c),
    ensures
        listed_paths(contents + seq![c]) == listed_paths(contents),
{
    law_parse_splits_at_space(contents, c, seq![]);
    assert(contents + seq![c] + Seq::<char>::empty() =~= contents + seq![c]);
    assert(listed_paths(Seq::<char>::empty()) =~= Seq::<Seq<char>>::empty());
    assert(listed_paths(contents) + Seq::<Seq<char>>::empty() =~= listed_paths(contents));
}

/// Contents with no ASCII white space list one path: the contents, trimmed.
pub proof fn law_parse_one_word(w: Seq<char>)
    requires
        w.len() > 0,
        forall|k: int| 0 <= k < w.len() ==> !is_ascii_space(#[trigger] w[k]),
    ensures
        listed_paths(w) == seq![trimmed(w)],
{
    lemma_words_after_word(w, seq![], seq![]);
    assert(w + Seq::<char>::empty() =~= w);
    assert(Seq::<char>::empty() + w =~= w);
    assert(listed_paths(w) =~= seq![trimmed(w)]);
}

/// Empty contents list no path.
pub proof fn law_parse_empty()
    ensures
        listed_paths(Seq::<char>::empty()) == Seq::<Seq<char>>::empty(),
{
    assert(listed_paths(Seq::<char>::empty()) =~= Seq::<Seq<char>>::empty());
}

/// The banner is shown exactly when the service does not run or must
/// restart.
pub proof fn law_banner_shown(status: ServiceStatus, restart_required: bool)
    ensures
        shows_banner(status, restart_required) <==> (status != ServiceStatus::Running
            || restart_required),
{
}

/// Finding the service not running never reports an error that was not
/// there: a stopped or starting service shows as stopped, and only a failed
/// query makes the status an error.
pub proof fn law_not_running_is_stopped(status: ServiceStatus)
    ensures
        status != ServiceStatus::Error ==> status_after_answer(status, Ok(false))
            == ServiceStatus::Stopped,
        status == ServiceStatus::Error ==> status_after_answer(status, Ok(false))
            == ServiceStatus::Error,
        status_after_answer(status, Ok(true)) == ServiceStatus::Running,
        forall|e: String| status_after_answer(status, Err(e)) == ServiceStatus::Error,
{
}

} // verus!
