//! The user picker: the distinct process owners in `str` order, which row
//! is highlighted when it opens (row 0 is "all users"), and its keys.

use vstd::prelude::*;
use vstd::utf8::{decode_utf8, encode_utf8};
use crate::bytes::{lex_compare, lex_order, lemma_lex_order_equal, lemma_lex_order_flip, lemma_lex_order_transitive, str_eq, Order};
use crate::input::KeyCode;

verus! {

/// The order of `str::cmp` on two texts: byte order of their UTF-8.
pub open spec fn text_order(a: Seq<char>, b: Seq<char>) -> Order {
    lex_order(encode_utf8(a), encode_utf8(b))
}

/// Each name comes strictly after the one before it.
pub open spec fn strictly_sorted(names: Seq<Seq<char>>) -> bool {
    forall|a: int, b: int| 0 <= a < b < names.len() ==> text_order(#[trigger] names[a], #[trigger] names[b]) == Order::Less
}

proof fn lemma_text_equal(a: Seq<char>, b: Seq<char>)
    ensures
        (text_order(a, b) == Order::Equal) == (a == b),
{
    lemma_lex_order_equal(encode_utf8(a), encode_utf8(b));
    if encode_utf8(a) == encode_utf8(b) {
        vstd::utf8::encode_utf8_decode_utf8(a);
        vstd::utf8::encode_utf8_decode_utf8(b);
    }
}

/// `a` sorts after `b`.
fn text_after(a: &str, b: &str) -> (r: bool)
    ensures
        r == (text_order(a@, b@) == Order::Greater),
{
    match lex_compare(a.as_bytes(), b.as_bytes()) {
        Order::Greater => true,
        _ => false,
    }
}

proof fn lemma_take_contains(s: Seq<Seq<char>>, i: int)
    requires
        0 <= i < s.len(),
    ensures
        forall|x: Seq<char>| #[trigger] s.take(i + 1).contains(x) <==> (s.take(i).contains(x) || x == s[i]),
{
    let t1 = s.take(i + 1);
    let t0 = s.take(i);
    assert forall|x: Seq<char>| t1.contains(x) <==> (t0.contains(x) || x == s[i]) by {
        if t1.contains(x) {
            let a = choose|a: int| 0 <= a < t1.len() && t1[a] == x;
            if a < i {
                assert(t0[a] == x);
            }
        }
        if t0.contains(x) {
            let a = choose|a: int| 0 <= a < t0.len() && t0[a] == x;
            assert(t1[a] == x);
        }
        if x == s[i] {
            assert(t1[i] == x);
        }
    }
}

/// The distinct owners of `users`, in `str` order.
pub fn user_choices(users: &[String]) -> (r: Vec<String>)
    ensures
        strictly_sorted(r.deep_view()),
        forall|x: Seq<char>| r.deep_view().contains(x) <==> users.deep_view().contains(x),
{
    let ghost all = users.deep_view();
    let mut r: Vec<String> = Vec::new();
    let mut i: usize = 0;
    while i < users.len()
        invariant
            all == users.deep_view(),
            all.len() == users@.len(),
            i <= users.len(),
            strictly_sorted(r.deep_view()),
            forall|x: Seq<char>| r.deep_view().contains(x) <==> all.take(i as int).contains(x),
        decreases users.len() - i,
    {
        let u = users[i].as_str();
        assert(u@ == all[i as int]);
        proof {
            lemma_take_contains(all, i as int);
        }
        let ghost rv = r.deep_view();
        let mut pos: usize = 0;
        while pos < r.len() && text_after(u, r[pos].as_str())
            invariant
                rv == r.deep_view(),
                rv.len() == r@.len(),
                pos <= r.len(),
                forall|k: int| 0 <= k < pos ==> text_order(u@, #[trigger] rv[k]) == Order::Greater,
            decreases r.len() - pos,
        {
            pos = pos + 1;
        }
        if pos < r.len() && str_eq(u, r[pos].as_str()) {
            assert(rv[pos as int] == u@);
            assert forall|x: Seq<char>| r.deep_view().contains(x) <==> all.take(i + 1).contains(x) by {
                if x == u@ {
                    assert(rv[pos as int] == x);
                }
            }
        } else {
            proof {
                if pos < rv.len() {
                    lemma_text_equal(u@, rv[pos as int]);
                    assert(text_order(u@, rv[pos as int]) == Order::Less);
                }
            }
            r.insert(pos, users[i].clone());
            let ghost t = r.deep_view();
            assert(t =~= rv.insert(pos as int, u@));
            assert forall|a: int, b: int| 0 <= a < b < t.len() implies text_order(#[trigger] t[a], #[trigger] t[b]) == Order::Less by {
                if b < pos {
                    assert(t[a] == rv[a] && t[b] == rv[b]);
                } else if b == pos {
                    assert(t[a] == rv[a]);
                    lemma_lex_order_flip(encode_utf8(u@), encode_utf8(rv[a]));
                } else if a == pos {
                    assert(t[b] == rv[b - 1]);
                    if b - 1 > pos {
                        assert(text_order(rv[pos as int], rv[b - 1]) == Order::Less);
                        lemma_lex_order_transitive(
                            encode_utf8(u@),
                            encode_utf8(rv[pos as int]),
                            encode_utf8(rv[b - 1]),
                            Order::Less,
                        );
                    }
                } else if a < pos {
                    assert(t[a] == rv[a] && t[b] == rv[b - 1]);
                } else {
                    assert(t[a] == rv[a - 1] && t[b] == rv[b - 1]);
                }
            }
            assert forall|x: Seq<char>| t.contains(x) <==> all.take(i + 1).contains(x) by {
                if t.contains(x) {
                    let k = choose|k: int| 0 <= k < t.len() && t[k] == x;
                    if k < pos {
                        assert(rv[k] == x);
                    } else if k > pos {
                        assert(rv[k - 1] == x);
                    }
                }
                if rv.contains(x) {
                    let k = choose|k: int| 0 <= k < rv.len() && rv[k] == x;
                    if k < pos {
                        assert(t[k] == x);
                    } else {
                        assert(t[k + 1] == x);
                    }
                }
                if x == u@ {
                    assert(t[pos as int] == x);
                }
            }
        }
        i = i + 1;
    }
    assert(all.take(all.len() as int) =~= all);
    r
}

/// The first position of `name` in `names`.
pub open spec fn name_pos(names: Seq<Seq<char>>, name: Seq<char>) -> Option<int>
    decreases names.len(),
{
    if names.len() == 0 {
        None
    } else if names[0] == name {
        Some(0)
    } else {
        match name_pos(names.drop_first(), name) {
            Some(p) => Some(p + 1),
            None => None,
        }
    }
}

proof fn lemma_name_pos(names: Seq<Seq<char>>, name: Seq<char>)
    ensures
        match name_pos(names, name) {
            Some(p) => 0 <= p < names.len() && names[p] == name && forall|k: int| 0 <= k < p ==> names[k] != name,
            None => forall|k: int| 0 <= k < names.len() ==> names[k] != name,
        },
    decreases names.len(),
{
    if names.len() > 0 {
        lemma_name_pos(names.drop_first(), name);
        assert forall|k: int| 1 <= k < names.len() implies names[k] == names.drop_first()[k - 1] by {}
    }
}

/// The row highlighted when the picker opens: the selected user's row, or
/// "all users" (row 0) when no user is selected or the user is gone.
pub fn user_choice_index(choices: &[String], selected: Option<&str>) -> (r: usize)
    ensures
        r == match selected {
            Some(u) => match name_pos(choices.deep_view(), u@) {
                Some(p) => p + 1,
                None => 0,
            },
            None => 0,
        },
{
    match selected {
        None => 0,
        Some(u) => {
            let ghost names = choices.deep_view();
            proof {
                lemma_name_pos(names, u@);
            }
            let mut k: usize = 0;
            while k < choices.len()
                invariant
                    selected == Some(u),
                    names == choices.deep_view(),
                    names.len() == choices@.len(),
                    k <= choices.len(),
                    forall|j: int| 0 <= j < k ==> names[j] != u@,
                    match name_pos(names, u@) {
                        Some(p) => 0 <= p < names.len() && names[p] == u@ && forall|j: int|
                            0 <= j < p ==> names[j] != u@,
                        None => forall|j: int| 0 <= j < names.len() ==> names[j] != u@,
                    },
                decreases choices.len() - k,
            {
                assert(names[k as int] == choices@[k as int]@);
                if str_eq(choices[k].as_str(), u) {
                    assert(name_pos(names, u@) == Some(k as int));
                    return k + 1;
                }
                k = k + 1;
            }
            0
        },
    }
}

/// What a key does in the user picker.
#[derive(Clone, Copy, Debug, PartialEq, Eq, Structural)]
pub enum UserSelectOutcome {
    Stay,
    Close,
    /// Filter by this choice (`None`: all users) and close.
    Choose(Option<usize>),
}

/// A key in the picker over `count` users, `index` being the highlighted
/// row (row 0 is "all users", row `k + 1` is user `k`).
pub fn user_select_key(index: &mut usize, count: usize, key: KeyCode) -> (outcome: UserSelectOutcome)
    ensures
        outcome == match key {
            KeyCode::Esc => UserSelectOutcome::Close,
            KeyCode::Enter => if *old(index) == 0 {
                UserSelectOutcome::Choose(None)
            } else if *old(index) - 1 < count {
                UserSelectOutcome::Choose(Some((*old(index) - 1) as usize))
            } else {
                UserSelectOutcome::Close
            },
            _ => UserSelectOutcome::Stay,
        },
        *final(index) == match key {
            KeyCode::Up | KeyCode::Char('k') => if *old(index) > 0 { (*old(index) - 1) as usize } else { *old(index) },
            KeyCode::Down | KeyCode::Char('j') => if *old(index) < count { (*old(index) + 1) as usize } else { *old(index) },
            _ => *old(index),
        },
{
    match key {
        KeyCode::Esc => UserSelectOutcome::Close,
        KeyCode::Enter => if *index == 0 {
            UserSelectOutcome::Choose(None)
        } else if *index - 1 < count {
            UserSelectOutcome::Choose(Some(*index - 1))
        } else {
            UserSelectOutcome::Close
        },
        KeyCode::Up | KeyCode::Char('k') => {
            if *index > 0 {
                *index = *index - 1;
            }
            UserSelectOutcome::Stay
        },
        KeyCode::Down | KeyCode::Char('j') => {
            if *index < count {
                *index = *index + 1;
            }
            UserSelectOutcome::Stay
        },
        _ => UserSelectOutcome::Stay,
    }
}

/// Reopening the picker on the same owners keeps the highlighted user.
pub proof fn reopen_keeps_selected_user(choices: Seq<Seq<char>>, k: int)
    requires
        strictly_sorted(choices),
        0 <= k < choices.len(),
    ensures
        name_pos(choices, choices[k]) == Some(k),
{
    lemma_name_pos(choices, choices[k]);
    if let Some(p) = name_pos(choices, choices[k]) {
        if p < k {
            lemma_text_equal(choices[p], choices[k]);
        }
    }
}

} // verus!
