//! The scan as a function of what the handler decides.
//!
//! A scan starts at token 1 and dispatches one flag token after the other.
//! What the handler does in a dispatch matters to the scan in one respect
//! only: whether it took the value that follows the flag. A sequence of such
//! decisions, one for each dispatch, fixes every position that the cursor
//! comes to. The laws below hold of every such sequence.

use vstd::prelude::*;
use crate::token::{flag_after, has_value, is_flag};

verus! {

/// The scan stops at `at`: the tokens are used up, or the one there is no flag.
pub open spec fn halted(tokens: Seq<Seq<char>>, at: int) -> bool {
    at >= tokens.len() || !is_flag(tokens[at])
}

/// How far one dispatch moves the cursor: past the flag token, and past its
/// value where the value was taken.
pub open spec fn stride(take: bool) -> int {
    if take {
        2
    } else {
        1
    }
}

/// Where the cursor stands after the dispatches decided by `takes`.
pub open spec fn cursor_after(takes: Seq<bool>) -> int
    decreases takes.len(),
{
    if takes.len() == 0 {
        1
    } else {
        cursor_after(takes.drop_last()) + stride(takes.last())
    }
}

/// The index of the token that dispatch number `k` is about.
pub open spec fn position(takes: Seq<bool>, k: int) -> int {
    cursor_after(takes.take(k))
}

/// The flag in force after the dispatches decided by `takes`, where `prev`
/// was in force before the first.
pub open spec fn flag_in_force(
    tokens: Seq<Seq<char>>,
    prev: Option<char>,
    takes: Seq<bool>,
) -> Option<char>
    decreases takes.len(),
{
    if takes.len() == 0 {
        prev
    } else {
        flag_after(
            flag_in_force(tokens, prev, takes.drop_last()),
            tokens[cursor_after(takes.drop_last())],
        )
    }
}

/// A dispatch at `at` that decides `take` is in order: a flag token stands
/// there, and a value is taken only where one follows.
pub open spec fn dispatchable(tokens: Seq<Seq<char>>, at: int, take: bool) -> bool {
    &&& 0 <= at < tokens.len()
    &&& is_flag(tokens[at])
    &&& take ==> has_value(tokens, at)
}

/// Every dispatch of `takes` is in order on `tokens`.
pub open spec fn legal(tokens: Seq<Seq<char>>, takes: Seq<bool>) -> bool {
    forall|k: int|
        0 <= k < takes.len() ==> dispatchable(tokens, #[trigger] position(takes, k), takes[k])
}

/// A value is taken only in a dispatch that has a flag in force.
pub open spec fn taken_under_flag(
    tokens: Seq<Seq<char>>,
    prev: Option<char>,
    takes: Seq<bool>,
) -> bool {
    forall|k: int|
        0 <= k < takes.len() && takes[k] ==> (#[trigger] flag_in_force(
            tokens,
            prev,
            takes.take(k + 1),
        )) is Some
}

/// No dispatch of `takes` took a value.
pub open spec fn none_taken(takes: Seq<bool>) -> bool {
    forall|k: int| 0 <= k < takes.len() ==> !#[trigger] takes[k]
}

/// The decisions `takes` account for a whole scan of `tokens`: every dispatch
/// is in order, the scan stops where they leave the cursor, which is `at`, and
/// they leave `flag` in force where `prev` was in force before.
pub open spec fn accounts_for(
    tokens: Seq<Seq<char>>,
    prev: Option<char>,
    takes: Seq<bool>,
    at: int,
    flag: Option<char>,
) -> bool {
    &&& legal(tokens, takes)
    &&& taken_under_flag(tokens, prev, takes)
    &&& cursor_after(takes) == at
    &&& halted(tokens, at)
    &&& flag_in_force(tokens, prev, takes) == flag
}

/// One more dispatch: the scan goes on from where `takes` left it.
pub proof fn lemma_one_more(tokens: Seq<Seq<char>>, takes: Seq<bool>, take: bool)
    requires
        legal(tokens, takes),
        dispatchable(tokens, cursor_after(takes), take),
    ensures
        legal(tokens, takes.push(take)),
        cursor_after(takes.push(take)) == cursor_after(takes) + stride(take),
        forall|prev: Option<char>| #[trigger]
            flag_in_force(tokens, prev, takes.push(take)) == flag_after(
                flag_in_force(tokens, prev, takes),
                tokens[cursor_after(takes)],
            ),
        forall|prev: Option<char>|
            taken_under_flag(tokens, prev, takes) && (take ==> flag_after(
                flag_in_force(tokens, prev, takes),
                tokens[cursor_after(takes)],
            ) is Some) ==> #[trigger] taken_under_flag(tokens, prev, takes.push(take)),
        none_taken(takes) && !take ==> none_taken(takes.push(take)),
{
    let more = takes.push(take);
    assert(more.drop_last() =~= takes);
    assert forall|k: int| 0 <= k < more.len() implies dispatchable(
        tokens,
        #[trigger] position(more, k),
        more[k],
    ) by {
        if k < takes.len() {
            assert(more.take(k) =~= takes.take(k));
            assert(dispatchable(tokens, position(takes, k), takes[k]));
        } else {
            assert(more.take(k) =~= takes);
        }
    }
    assert forall|prev: Option<char>|
        taken_under_flag(tokens, prev, takes) && (take ==> flag_after(
            flag_in_force(tokens, prev, takes),
            tokens[cursor_after(takes)],
        ) is Some) implies #[trigger] taken_under_flag(tokens, prev, more) by {
        assert forall|k: int| 0 <= k < more.len() && more[k] implies (#[trigger] flag_in_force(
            tokens,
            prev,
            more.take(k + 1),
        )) is Some by {
            if k < takes.len() {
                assert(more.take(k + 1) =~= takes.take(k + 1));
            } else {
                assert(more.take(k + 1) =~= more);
            }
        }
    }
}

/// The cursor only moves forward: each dispatch leaves it one token further
/// than it found it, or two where the value was taken.
pub proof fn lemma_cursor_moves_forward(takes: Seq<bool>, k: int)
    requires
        0 <= k < takes.len(),
    ensures
        position(takes, k + 1) == position(takes, k) + stride(takes[k]),
        position(takes, k) < position(takes, k + 1),
{
    assert(takes.take(k + 1).drop_last() =~= takes.take(k));
}

/// Token 0, the program's name, is never dispatched.
pub proof fn lemma_program_name_is_passed(takes: Seq<bool>, k: int)
    requires
        0 <= k <= takes.len(),
    ensures
        1 <= position(takes, k),
    decreases k,
{
    if k > 0 {
        lemma_program_name_is_passed(takes, k - 1);
        lemma_cursor_moves_forward(takes, k - 1);
    }
}

/// Flags are dispatched from left to right: a later dispatch is about a
/// token further right.
pub proof fn lemma_left_to_right(takes: Seq<bool>, j: int, k: int)
    requires
        0 <= j < k <= takes.len(),
    ensures
        position(takes, j) < position(takes, k),
    decreases k - j,
{
    lemma_cursor_moves_forward(takes, j);
    if j + 1 < k {
        lemma_left_to_right(takes, j + 1, k);
    }
}

/// The cursor never comes back to a token that it has passed: no two
/// dispatches are about the same token, and the scan ends to the right of
/// every token that was dispatched.
pub proof fn lemma_no_token_twice(takes: Seq<bool>, j: int, k: int)
    requires
        0 <= j < takes.len(),
        0 <= k < takes.len(),
        j != k,
    ensures
        position(takes, j) != position(takes, k),
        position(takes, j) < cursor_after(takes),
{
    if j < k {
        lemma_left_to_right(takes, j, k);
    } else {
        lemma_left_to_right(takes, k, j);
    }
    lemma_left_to_right(takes, j, takes.len() as int);
    assert(takes.take(takes.len() as int) =~= takes);
}

/// A value that was taken is the token right after its flag, and belongs to
/// that flag alone: no dispatch is about the value token, and no other
/// dispatch has it for its value.
pub proof fn lemma_value_belongs_to_its_flag(
    tokens: Seq<Seq<char>>,
    takes: Seq<bool>,
    j: int,
    k: int,
)
    requires
        legal(tokens, takes),
        0 <= j < takes.len(),
        0 <= k < takes.len(),
        takes[j],
        k != j,
    ensures
        has_value(tokens, position(takes, j)),
        position(takes, j + 1) == position(takes, j) + 2,
        position(takes, k) != position(takes, j) + 1,
        position(takes, k) + 1 != position(takes, j) + 1,
{
    assert(dispatchable(tokens, position(takes, j), takes[j]));
    lemma_cursor_moves_forward(takes, j);
    if j < k {
        if j + 1 < k {
            lemma_left_to_right(takes, j + 1, k);
        }
    } else {
        lemma_left_to_right(takes, k, j);
    }
}

/// A scan leaves the cursor past the program's name and not past the end.
pub proof fn lemma_cursor_within(tokens: Seq<Seq<char>>, takes: Seq<bool>)
    requires
        tokens.len() >= 1,
        legal(tokens, takes),
    ensures
        1 <= cursor_after(takes) <= tokens.len(),
{
    let n = takes.len() as int;
    if n > 0 {
        assert(takes.take(n) =~= takes);
        lemma_cursor_moves_forward(takes, n - 1);
        lemma_program_name_is_passed(takes, n - 1);
        assert(dispatchable(tokens, position(takes, n - 1), takes[n - 1]));
    }
}

/// Every token between the program's name and the cursor is a flag that was
/// dispatched or the value that the flag before it took.
pub proof fn lemma_passed_tokens(tokens: Seq<Seq<char>>, takes: Seq<bool>, at: int)
    requires
        legal(tokens, takes),
        1 <= at < cursor_after(takes),
    ensures
        exists|k: int|
            0 <= k < takes.len() && (#[trigger] position(takes, k) == at || (takes[k] && position(
                takes,
                k,
            ) + 1 == at)),
    decreases takes.len(),
{
    let n = takes.len() as int;
    assert(takes.take(n) =~= takes);
    if n > 0 {
        lemma_cursor_moves_forward(takes, n - 1);
        let before = takes.take(n - 1);
        if at < position(takes, n - 1) {
            assert forall|k: int| 0 <= k < before.len() implies dispatchable(
                tokens,
                #[trigger] position(before, k),
                before[k],
            ) by {
                assert(before.take(k) =~= takes.take(k));
                assert(dispatchable(tokens, position(takes, k), takes[k]));
            }
            lemma_passed_tokens(tokens, before, at);
            let k = choose|k: int|
                0 <= k < before.len() && (#[trigger] position(before, k) == at || (before[k]
                    && position(before, k) + 1 == at));
            assert(before.take(k) =~= takes.take(k));
            assert(position(takes, k) == at || (takes[k] && position(takes, k) + 1 == at));
        } else {
            assert(position(takes, n - 1) == at || (takes[n - 1] && position(takes, n - 1) + 1
                == at));
        }
    }
}

/// Where no value is taken, the dispatches are about the tokens 1, 2, 3 and
/// so on, one after the other.
pub proof fn lemma_none_taken(takes: Seq<bool>, k: int)
    requires
        none_taken(takes),
        0 <= k <= takes.len(),
    ensures
        position(takes, k) == 1 + k,
    decreases k,
{
    if k > 0 {
        lemma_none_taken(takes, k - 1);
        lemma_cursor_moves_forward(takes, k - 1);
    }
}

/// Where the program's name is the only token, nothing is dispatched: the
/// cursor stays on token 1 and nothing is left.
pub proof fn lemma_program_name_alone(tokens: Seq<Seq<char>>, takes: Seq<bool>)
    requires
        tokens.len() == 1,
        legal(tokens, takes),
    ensures
        takes.len() == 0,
        cursor_after(takes) == 1,
        tokens.subrange(cursor_after(takes), tokens.len() as int) == Seq::<Seq<char>>::empty(),
{
    if takes.len() > 0 {
        assert(dispatchable(tokens, position(takes, 0), takes[0]));
        lemma_program_name_is_passed(takes, 0);
    }
    assert(tokens.subrange(1, 1) =~= Seq::<Seq<char>>::empty());
}

} // verus!
