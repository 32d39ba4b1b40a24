//! What the card offers.

use crate::card;
use crate::card::{PendingView, Style};
use crate::number;
use crate::text;
use vstd::prelude::*;

verus! {

proof fn lemma_filter_holds(s: Seq<Seq<char>>, keep: spec_fn(Seq<char>) -> bool)
    ensures
        forall|i: int|
            0 <= i < s.filter(keep).len() ==> s.contains(#[trigger] s.filter(keep)[i]) && keep(
                s.filter(keep)[i],
            ),
        forall|x: Seq<char>| s.contains(x) && keep(x) ==> #[trigger] s.filter(keep).contains(x),
        s.filter(keep).len() <= s.len(),
    decreases s.len(),
{
    reveal(Seq::filter);
    if s.len() > 0 {
        let shorter = s.drop_last();
        let before = shorter.filter(keep);
        let all = s.filter(keep);
        lemma_filter_holds(shorter, keep);
        assert forall|i: int| 0 <= i < all.len() implies s.contains(#[trigger] all[i]) && keep(
            all[i],
        ) by {
            if i < before.len() {
                assert(all[i] == before[i]);
                let k = choose|k: int| 0 <= k < shorter.len() && shorter[k] == before[i];
                assert(s[k] == all[i]);
            } else {
                assert(s[s.len() - 1] == all[i]);
            }
        }
        assert forall|x: Seq<char>| s.contains(x) && keep(x) implies #[trigger] all.contains(
            x,
        ) by {
            let k = choose|k: int| 0 <= k < s.len() && s[k] == x;
            if k < shorter.len() {
                assert(shorter[k] == x);
                assert(before.contains(x));
                let j = choose|j: int| 0 <= j < before.len() && before[j] == x;
                assert(all[j] == x);
            } else {
                assert(all.last() == x);
            }
        }
    }
}

/// The label menu never has more than Discord's 25 options, each of them a
/// label that the repository has. Labels that are chosen, and that the
/// repository has, come first and ticked; they all survive the cap where there
/// are no more than 25 of them. What was chosen and is no longer there is not
/// offered, and nothing is ticked that was not chosen.
pub proof fn law_chosen_labels_come_first_and_survive_the_cap(
    available: Seq<Seq<char>>,
    chosen: Seq<Seq<char>>,
)
    ensures
        ({
            let options = card::options_of(available, chosen);
            let still_there = chosen.filter(|c: Seq<char>| available.contains(c));
            &&& options.len() <= 25
            &&& forall|i: int|
                0 <= i < options.len() ==> available.contains((#[trigger] options[i]).value)
                    && options[i].default == chosen.contains(options[i].value)
            &&& forall|i: int|
                0 <= i < still_there.len() && i < 25 ==> i < options.len() && (
                #[trigger] options[i]).value == still_there[i] && options[i].default
            &&& forall|i: int|
                still_there.len() <= i < options.len() ==> !(#[trigger] options[i]).default
        }),
{
    let f = |c: Seq<char>| available.contains(c);
    let g = |a: Seq<char>| !chosen.contains(a);
    let still_there = chosen.filter(f);
    let rest = available.filter(g);
    lemma_filter_holds(chosen, f);
    lemma_filter_holds(available, g);
    let all = still_there + rest;
    let options = card::options_of(available, chosen);
    assert forall|i: int| 0 <= i < options.len() implies available.contains(
        (#[trigger] options[i]).value,
    ) && options[i].default == chosen.contains(options[i].value) by {
        assert(options[i].value == all[i]);
        if i < still_there.len() {
            assert(f(still_there[i]));
        } else {
            assert(available.contains(rest[i - still_there.len()]));
        }
    }
    assert forall|i: int| 0 <= i < still_there.len() && i < 25 implies i < options.len() && (
    #[trigger] options[i]).value == still_there[i] && options[i].default by {
        assert(all[i] == still_there[i]);
        assert(chosen.contains(still_there[i]));
    }
    assert forall|i: int| still_there.len() <= i < options.len() implies !(
    #[trigger] options[i]).default by {
        assert(options[i].value == rest[i - still_there.len()]);
        assert(g(rest[i - still_there.len()]));
    }
}

/// There is a label menu exactly where the repository has a label, and the
/// buttons are always there, last.
pub proof fn law_a_repo_without_labels_gets_no_menu(p: PendingView)
    ensures
        card::options_of(p.available_labels, p.draft.labels).len() == 0
            <==> p.available_labels.len() == 0,
        card::components_of(p).len() == if p.available_labels.len() == 0 {
            1int
        } else {
            2
        },
        card::components_of(p).last() == card::RowView::Buttons(card::buttons_of()),
{
    let available = p.available_labels;
    let chosen = p.draft.labels;
    let f = |c: Seq<char>| available.contains(c);
    let g = |a: Seq<char>| !chosen.contains(a);
    lemma_filter_holds(chosen, f);
    lemma_filter_holds(available, g);
    let still_there = chosen.filter(f);
    let rest = available.filter(g);
    if available.len() == 0 {
        if still_there.len() > 0 {
            assert(f(still_there[0]));
        }
        assert(still_there + rest =~= Seq::<Seq<char>>::empty());
    } else {
        let a = available[0];
        assert(available.contains(a));
        if chosen.contains(a) {
            assert(f(a));
            assert(still_there.contains(a));
        } else {
            assert(g(a));
            assert(rest.contains(a));
        }
    }
}

/// Every label that the repository has is on offer where there is room for it:
/// those that are not chosen come behind those that are, in the repository's
/// order, and the menu is full before one is left out. Each is picked whole, and
/// shown so where it has up to 100 characters.
pub proof fn law_every_label_is_on_offer(available: Seq<Seq<char>>, chosen: Seq<Seq<char>>)
    ensures
        ({
            let options = card::options_of(available, chosen);
            let first = chosen.filter(|c: Seq<char>| available.contains(c));
            let rest = available.filter(|a: Seq<char>| !chosen.contains(a));
            &&& options.len() == if first.len() + rest.len() <= 25 {
                first.len() + rest.len()
            } else {
                25
            }
            &&& forall|i: int|
                first.len() <= i < options.len() ==> (#[trigger] options[i]).value == rest[i
                    - first.len()]
            &&& forall|i: int|
                0 <= i < options.len() && options[i].value.len() <= 100 ==> (
                #[trigger] options[i]).label == options[i].value
            &&& forall|i: int|
                0 <= i < options.len() && options[i].value.len() > 100 ==> (
                #[trigger] options[i]).label == options[i].value.take(86) + " … [truncated]"@
            &&& options.len() < 25 ==> forall|a: Seq<char>| #[trigger]
                available.contains(a) ==> exists|i: int|
                    0 <= i < options.len() && (#[trigger] options[i]).value == a
        }),
{
    reveal_strlit(" … [truncated]");
    let f = |c: Seq<char>| available.contains(c);
    let g = |a: Seq<char>| !chosen.contains(a);
    let first = chosen.filter(f);
    let rest = available.filter(g);
    lemma_filter_holds(chosen, f);
    lemma_filter_holds(available, g);
    let all = first + rest;
    let options = card::options_of(available, chosen);
    assert forall|i: int| first.len() <= i < options.len() implies (#[trigger] options[i]).value
        == rest[i - first.len()] by {
        assert(options[i].value == all[i]);
    }
    if options.len() < 25 {
        assert forall|a: Seq<char>| #[trigger] available.contains(a) implies exists|i: int|
            0 <= i < options.len() && (#[trigger] options[i]).value == a by {
            if chosen.contains(a) {
                assert(f(a));
                assert(first.contains(a));
                let k = choose|k: int| 0 <= k < first.len() && first[k] == a;
                assert(all[k] == a);
                assert(options[k].value == a);
            } else {
                assert(g(a));
                assert(rest.contains(a));
                let k = choose|k: int| 0 <= k < rest.len() && rest[k] == a;
                assert(all[first.len() + k] == a);
                assert(options[first.len() + k].value == a);
            }
        }
    }
}

/// The card shows the draft that would be filed: where it goes, its title, its
/// labels and its summary, each as it is where it fits; and whose it is, how many
/// messages it is made of, and what it lacks.
pub proof fn law_the_card_shows_the_draft(p: PendingView)
    ensures
        ({
            let card = card::embed_of(p);
            let ticked = Seq::new(p.draft.labels.len(), |i: int| "`"@ + p.draft.labels[i] + "`"@);
            let footer = number::decimal(p.transcript.total_messages) + " messages · requested by "@
                + p.reporter;
            let trimmed = " · thread trimmed to fit"@;
            let raw = " · drafted without the model"@;
            &&& card.title == "Draft issue"@
            &&& card.description == "Filing into **"@ + p.repo.owner + "/"@ + p.repo.name
                + "** once you confirm."@
            &&& card.fields.len() == 3
            &&& card.fields[0].0 == "Title"@
            &&& p.draft.title.len() <= 1_000 ==> card.fields[0].1 == p.draft.title
            &&& p.draft.title.len() > 1_000 ==> card.fields[0].1 == p.draft.title.take(986)
                + " … [truncated]"@
            &&& card.fields[1].0 == "Labels"@
            &&& p.draft.labels.len() == 0 ==> card.fields[1].1 == "_none_"@
            &&& p.draft.labels.len() > 0 ==> card.fields[1].1 == text::joined(ticked, " "@)
            &&& card.fields[2].0 == "Summary"@
            &&& p.draft.summary.len() == 0 ==> card.fields[2].1
                == "_No summary — the thread will be filed as-is._"@
            &&& 0 < p.draft.summary.len() <= 1_000 ==> card.fields[2].1 == p.draft.summary
            &&& p.draft.summary.len() > 1_000 ==> card.fields[2].1 == p.draft.summary.take(986)
                + " … [truncated]"@
            &&& card.footer == match (p.transcript.body_truncated, p.draft.from_model) {
                (false, true) => footer,
                (true, true) => footer + trimmed,
                (false, false) => footer + raw,
                (true, false) => footer + trimmed + raw,
            }
        }),
{
    reveal_strlit(" … [truncated]");
    let card = card::embed_of(p);
    assert(card::ticked(p.draft.labels) =~= Seq::new(
        p.draft.labels.len(),
        |i: int| "`"@ + p.draft.labels[i] + "`"@,
    ));
    assert(card.description =~= "Filing into **"@ + p.repo.owner + "/"@ + p.repo.name
        + "** once you confirm."@);
    let footer = number::decimal(p.transcript.total_messages) + " messages · requested by "@
        + p.reporter;
    let trimmed = " · thread trimmed to fit"@;
    let raw = " · drafted without the model"@;
    match (p.transcript.body_truncated, p.draft.from_model) {
        (false, true) => {
            assert(card.footer =~= footer);
        },
        (true, true) => {
            assert(card.footer =~= footer + trimmed);
        },
        (false, false) => {
            assert(card.footer =~= footer + raw);
        },
        (true, false) => {
            assert(card.footer =~= footer + trimmed + raw);
        },
    }
}

/// Every card has its three buttons, each called what it does, and a menu of
/// labels, where there is one, that lets up to three be picked, or none.
pub proof fn law_controls_do_what_they_say(p: PendingView)
    ensures
        ({
            let rows = card::components_of(p);
            let buttons = rows[rows.len() - 1]->Buttons_0;
            let menu = rows[0]->SelectMenu_0;
            let options = card::options_of(p.available_labels, p.draft.labels);
            &&& rows.len() > 0
            &&& rows[rows.len() - 1] is Buttons
            &&& buttons.len() == 3
            &&& buttons[0].custom_id == "issue.create"@ && buttons[0].label == "Create issue"@
                && buttons[0].style == Style::Success
            &&& buttons[1].custom_id == "issue.edit"@ && buttons[1].label == "Edit title"@
            &&& buttons[2].custom_id == "issue.cancel"@ && buttons[2].label == "Cancel"@
                && buttons[2].style == Style::Danger
            &&& rows.len() > 1 <==> options.len() > 0
            &&& rows.len() > 1 ==> {
                &&& rows.len() == 2
                &&& rows[0] is SelectMenu
                &&& menu.custom_id == "issue.labels"@
                &&& menu.options == options
                &&& menu.min_values == 0
                &&& menu.max_values == if options.len() < 3 {
                    options.len()
                } else {
                    3
                }
            }
        }),
{
}

} // verus!
