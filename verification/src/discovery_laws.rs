//! What a whole round of discovery makes of the list of known peers.

use vstd::prelude::*;

use crate::lan_peer;
use crate::lan_peer::PeerRecord;
use crate::replies;
use crate::replies::PeerBook;

verus! {

/// The ids of a list of records.
pub open spec fn ids_of(s: Seq<PeerRecord>) -> Seq<Seq<char>> {
    s.map_values(|p: PeerRecord| p.id)
}

/// For each record in `known`, whether it is of the same peer as `peer`, as `same`
/// tells it.
pub open spec fn same_flags(
    known: Seq<PeerRecord>,
    peer: PeerRecord,
    same: spec_fn(PeerRecord, PeerRecord) -> bool,
) -> Seq<bool> {
    known.map_values(|k: PeerRecord| same(k, peer))
}

/// The list `known` after the peers `answers` answered one after the other in one
/// round.
pub open spec fn after_round(
    known: Seq<PeerRecord>,
    answers: Seq<PeerRecord>,
    same: spec_fn(PeerRecord, PeerRecord) -> bool,
) -> Seq<PeerRecord>
    decreases answers.len(),
{
    if answers.len() == 0 {
        known
    } else {
        let before = after_round(known, answers.drop_last(), same);
        let peer = answers.last();
        replies::after_answer(
            before,
            peer,
            replies::first_set(same_flags(before, peer, same)),
            ids_of(answers.drop_last()).contains(peer.id),
        )
    }
}

/// Whether `book` is what the list `known` has become after `answers`.
pub open spec fn is_after_round(
    book: PeerBook,
    known: Seq<PeerRecord>,
    answers: Seq<PeerRecord>,
    same: spec_fn(PeerRecord, PeerRecord) -> bool,
) -> bool {
    &&& book.known() == after_round(known, answers, same)
    &&& forall|id: Seq<char>| #[trigger]
        book.has_answered(id) <==> ids_of(answers).contains(id)
}

/// A list in which nobody has answered is one after a round without answers.
pub proof fn law_round_begins_with_the_list(
    book: PeerBook,
    same: spec_fn(PeerRecord, PeerRecord) -> bool,
)
    requires
        forall|id: Seq<char>| !book.has_answered(id),
    ensures
        is_after_round(book, book.known(), Seq::empty(), same),
{
    assert(ids_of(Seq::empty()).len() == 0);
}

/// Each answer that the list takes continues the round by that answer.
pub proof fn law_each_answer_continues_the_round(
    before: PeerBook,
    after: PeerBook,
    known: Seq<PeerRecord>,
    answers: Seq<PeerRecord>,
    peer: PeerRecord,
    same: spec_fn(PeerRecord, PeerRecord) -> bool,
)
    requires
        is_after_round(before, known, answers, same),
        replies::took(before, after, peer, same_flags(before.known(), peer, same)),
    ensures
        is_after_round(after, known, answers.push(peer), same),
{
    assert(answers.push(peer).drop_last() == answers);
    let ids = ids_of(answers);
    assert(ids_of(answers.push(peer)) == ids.push(peer.id));
    assert forall|id: Seq<char>| #[trigger] after.has_answered(id) <==> ids.push(peer.id).contains(
        id,
    ) by {
        assert(before.has_answered(id) <==> ids.contains(id));
        assert(ids.push(peer.id)[ids.len() as int] == peer.id);
        if ids.contains(id) {
            let i = choose|i: int| 0 <= i < ids.len() && ids[i] == id;
            assert(ids.push(peer.id)[i] == id);
        }
    }
}

/// Whether `a` and `b` say the same of the peer but for its addresses and whether
/// it is online.
pub open spec fn same_owner(a: PeerRecord, b: PeerRecord) -> bool {
    a.id == b.id && a.username == b.username && a.hostname == b.hostname && a.platform
        == b.platform
}

/// Whether `same` sorts records into peers: it is an equivalence, and neither
/// addresses nor being online make another peer.
pub open spec fn sorts_peers(same: spec_fn(PeerRecord, PeerRecord) -> bool) -> bool {
    &&& forall|a: PeerRecord, b: PeerRecord| same_owner(a, b) ==> #[trigger] same(a, b)
    &&& forall|a: PeerRecord, b: PeerRecord| #[trigger] same(a, b) ==> same(b, a)
    &&& forall|a: PeerRecord, b: PeerRecord, c: PeerRecord| #[trigger]
        same(a, b) && #[trigger] same(b, c) ==> same(a, c)
}

/// Whether no two records in `s` are of the same peer.
pub open spec fn all_differ(s: Seq<PeerRecord>, same: spec_fn(PeerRecord, PeerRecord) -> bool) ->
    bool {
    forall|i: int, j: int|
        0 <= i < s.len() && 0 <= j < s.len() && i != j ==> !same(#[trigger] s[i], #[trigger] s[j])
}

/// Whether answers under the same id are of the same peer.
pub open spec fn ids_name_peers(
    answers: Seq<PeerRecord>,
    same: spec_fn(PeerRecord, PeerRecord) -> bool,
) -> bool {
    forall|i: int, j: int|
        0 <= i < answers.len() && 0 <= j < answers.len() && (#[trigger] answers[i]).id == (
        #[trigger] answers[j]).id ==> same(answers[i], answers[j])
}

/// Whether answers of the same peer have the same id.
pub open spec fn peers_keep_ids(
    answers: Seq<PeerRecord>,
    same: spec_fn(PeerRecord, PeerRecord) -> bool,
) -> bool {
    forall|i: int, j: int|
        0 <= i < answers.len() && 0 <= j < answers.len() && same(
            #[trigger] answers[i],
            #[trigger] answers[j],
        ) ==> answers[i].id == answers[j].id
}

/// Whether a record is of another peer than `peer`.
pub open spec fn unlike(
    peer: PeerRecord,
    same: spec_fn(PeerRecord, PeerRecord) -> bool,
) -> spec_fn(PeerRecord) -> bool {
    |x: PeerRecord| !same(x, peer)
}

/// Whether one of `answers` is of the same peer as `x`.
pub open spec fn has_answer_of(
    answers: Seq<PeerRecord>,
    x: PeerRecord,
    same: spec_fn(PeerRecord, PeerRecord) -> bool,
) -> bool {
    exists|i: int| 0 <= i < answers.len() && same(x, #[trigger] answers[i])
}

/// Whether none of `answers` is of the same peer as a record.
pub open spec fn unanswered(
    answers: Seq<PeerRecord>,
    same: spec_fn(PeerRecord, PeerRecord) -> bool,
) -> spec_fn(PeerRecord) -> bool {
    |x: PeerRecord| !has_answer_of(answers, x, same)
}

/// The last answer of each peer, the latest first.
pub open spec fn latest_first(
    answers: Seq<PeerRecord>,
    same: spec_fn(PeerRecord, PeerRecord) -> bool,
) -> Seq<PeerRecord>
    decreases answers.len(),
{
    if answers.len() == 0 {
        answers
    } else {
        seq![answers.last()] + latest_first(answers.drop_last(), same).filter(
            unlike(answers.last(), same),
        )
    }
}

/// What the peer of the record `x` said of itself in `answers`: its last answer,
/// with the addresses of those before where one had the same id.
pub open spec fn gathered(
    answers: Seq<PeerRecord>,
    x: PeerRecord,
    same: spec_fn(PeerRecord, PeerRecord) -> bool,
) -> PeerRecord
    decreases answers.len(),
{
    let front = answers.drop_last();
    if answers.len() == 0 {
        x
    } else if !same(answers.last(), x) {
        gathered(front, x, same)
    } else if ids_of(front).contains(answers.last().id) {
        replies::merged(answers.last(), gathered(front, answers.last(), same))
    } else {
        answers.last()
    }
}

/// What each of the peers of `list` said of itself in `answers`.
pub open spec fn responders(
    answers: Seq<PeerRecord>,
    list: Seq<PeerRecord>,
    same: spec_fn(PeerRecord, PeerRecord) -> bool,
) -> Seq<PeerRecord> {
    list.map_values(|x: PeerRecord| gathered(answers, x, same))
}

/// The records in `known` of the peers that did not answer.
pub open spec fn silent_peers(
    known: Seq<PeerRecord>,
    answers: Seq<PeerRecord>,
    same: spec_fn(PeerRecord, PeerRecord) -> bool,
) -> Seq<PeerRecord> {
    known.filter(unanswered(answers, same))
}

/// The last place in `answers` of an answer of the same peer as `x`; -1 where there
/// is none.
pub open spec fn last_place(
    answers: Seq<PeerRecord>,
    x: PeerRecord,
    same: spec_fn(PeerRecord, PeerRecord) -> bool,
) -> int
    decreases answers.len(),
{
    if answers.len() == 0 {
        -1
    } else if same(answers.last(), x) {
        answers.len() - 1
    } else {
        last_place(answers.drop_last(), x, same)
    }
}

/// Whether the peer of the record `x` gave the address `ip` in one of `answers`.
pub open spec fn gave_ip(
    answers: Seq<PeerRecord>,
    x: PeerRecord,
    ip: Seq<char>,
    same: spec_fn(PeerRecord, PeerRecord) -> bool,
) -> bool {
    exists|k: int|
        0 <= k < answers.len() && same(#[trigger] answers[k], x) && lan_peer::lists(
            answers[k].ip_mac,
            ip,
        )
}

proof fn lemma_first_set_none(flags: Seq<bool>)
    requires
        forall|i: int| 0 <= i < flags.len() ==> !#[trigger] flags[i],
    ensures
        replies::first_set(flags) is None,
    decreases flags.len(),
{
    if flags.len() > 0 {
        let front = flags.drop_last();
        assert forall|i: int| 0 <= i < front.len() implies !#[trigger] front[i] by {
            assert(front[i] == flags[i]);
        }
        lemma_first_set_none(front);
        assert(!flags[flags.len() - 1]);
    }
}

proof fn lemma_first_set_at(flags: Seq<bool>, k: int)
    requires
        0 <= k < flags.len(),
        flags[k],
        forall|i: int| 0 <= i < k ==> !#[trigger] flags[i],
    ensures
        replies::first_set(flags) == Some(k),
    decreases flags.len(),
{
    let front = flags.drop_last();
    assert forall|i: int| 0 <= i < k implies !#[trigger] front[i] by {
        assert(front[i] == flags[i]);
    }
    if k < front.len() {
        assert(front[k] == flags[k]);
        lemma_first_set_at(front, k);
    } else {
        lemma_first_set_none(front);
    }
}

proof fn lemma_filter_all<A>(s: Seq<A>, pred: spec_fn(A) -> bool)
    requires
        forall|i: int| 0 <= i < s.len() ==> pred(#[trigger] s[i]),
    ensures
        s.filter(pred) == s,
    decreases s.len(),
{
    reveal(Seq::filter);
    if s.len() > 0 {
        let front = s.drop_last();
        assert forall|i: int| 0 <= i < front.len() implies pred(#[trigger] front[i]) by {
            assert(front[i] == s[i]);
        }
        lemma_filter_all(front, pred);
        assert(pred(s[s.len() - 1]));
        assert(front.push(s.last()) == s);
    }
}

proof fn lemma_filter_all_but<A>(s: Seq<A>, pred: spec_fn(A) -> bool, k: int)
    requires
        0 <= k < s.len(),
        !pred(s[k]),
        forall|i: int| 0 <= i < s.len() && i != k ==> pred(#[trigger] s[i]),
    ensures
        s.filter(pred) == s.remove(k),
    decreases s.len(),
{
    reveal(Seq::filter);
    let front = s.drop_last();
    if k < front.len() {
        assert forall|i: int| 0 <= i < front.len() && i != k implies pred(#[trigger] front[i]) by {
            assert(front[i] == s[i]);
        }
        lemma_filter_all_but(front, pred, k);
        assert(pred(s[s.len() - 1]));
        assert(front.remove(k).push(s.last()) == s.remove(k));
    } else {
        assert forall|i: int| 0 <= i < front.len() implies pred(#[trigger] front[i]) by {
            assert(front[i] == s[i]);
        }
        lemma_filter_all(front, pred);
        assert(front == s.remove(k));
    }
}

/// What stays is what was there and is to stay.
proof fn lemma_filter_places<A>(s: Seq<A>, pred: spec_fn(A) -> bool)
    ensures
        forall|x: A| #[trigger] s.filter(pred).contains(x) <==> s.contains(x) && pred(x),
    decreases s.len(),
{
    reveal(Seq::filter);
    if s.len() > 0 {
        let front = s.drop_last();
        let kept = front.filter(pred);
        let all = s.filter(pred);
        lemma_filter_places(front, pred);
        assert forall|x: A| #[trigger] all.contains(x) <==> s.contains(x) && pred(x) by {
            if all.contains(x) {
                let i = choose|i: int| 0 <= i < all.len() && all[i] == x;
                if i < kept.len() {
                    assert(kept[i] == x);
                    assert(kept.contains(x));
                    let j = choose|j: int| 0 <= j < front.len() && front[j] == x;
                    assert(s[j] == x);
                } else {
                    assert(s[s.len() - 1] == x);
                }
            }
            if s.contains(x) && pred(x) {
                let j = choose|j: int| 0 <= j < s.len() && s[j] == x;
                if j < front.len() {
                    assert(front[j] == x);
                    assert(kept.contains(x));
                    let i = choose|i: int| 0 <= i < kept.len() && kept[i] == x;
                    assert(all[i] == x);
                } else {
                    assert(all[kept.len() as int] == x);
                }
            }
        }
    }
}

/// Records of different peers are still of different peers when some are left out.
proof fn lemma_filter_differ(
    s: Seq<PeerRecord>,
    pred: spec_fn(PeerRecord) -> bool,
    same: spec_fn(PeerRecord, PeerRecord) -> bool,
)
    requires
        sorts_peers(same),
        all_differ(s, same),
    ensures
        all_differ(s.filter(pred), same),
    decreases s.len(),
{
    reveal(Seq::filter);
    if s.len() > 0 {
        let front = s.drop_last();
        let kept = front.filter(pred);
        let all = s.filter(pred);
        assert forall|i: int, j: int|
            0 <= i < front.len() && 0 <= j < front.len() && i != j implies !same(
            #[trigger] front[i],
            #[trigger] front[j],
        ) by {
            assert(front[i] == s[i] && front[j] == s[j]);
        }
        lemma_filter_differ(front, pred, same);
        lemma_filter_places(front, pred);
        let n = s.len() - 1;
        assert forall|i: int| 0 <= i < kept.len() implies !same(#[trigger] kept[i], s[n]) by {
            assert(kept.contains(kept[i]));
            let k = choose|k: int| 0 <= k < front.len() && front[k] == kept[i];
            assert(s[k] == kept[i]);
            assert(!same(s[k], s[n]));
        }
        assert forall|i: int, j: int|
            0 <= i < all.len() && 0 <= j < all.len() && i != j implies !same(
            #[trigger] all[i],
            #[trigger] all[j],
        ) by {
            if i < kept.len() {
                assert(all[i] == kept[i]);
            } else {
                assert(all[i] == s[n]);
            }
            if j < kept.len() {
                assert(all[j] == kept[j]);
            } else {
                assert(all[j] == s[n]);
            }
            if same(all[i], all[j]) {
                assert(same(all[j], all[i]));
            }
        }
    }
}

/// Leaving out those of `front` and then those of one more answer leaves out both.
proof fn lemma_silent_step(
    known: Seq<PeerRecord>,
    answers: Seq<PeerRecord>,
    same: spec_fn(PeerRecord, PeerRecord) -> bool,
)
    requires
        answers.len() > 0,
    ensures
        silent_peers(known, answers, same) == silent_peers(
            known,
            answers.drop_last(),
            same,
        ).filter(unlike(answers.last(), same)),
    decreases known.len(),
{
    reveal(Seq::filter);
    if known.len() > 0 {
        let before = known.drop_last();
        let x = known.last();
        let front = answers.drop_last();
        lemma_silent_step(before, answers, same);
        let kept = silent_peers(before, front, same);
        lemma_has_answer_step(answers, x, same);
        if !has_answer_of(front, x, same) {
            assert(kept.push(x).drop_last() == kept);
        }
    }
}

/// Whether each of `list` is the last answer of its peer, and comes later than those
/// behind it.
spec fn in_latest_order(
    list: Seq<PeerRecord>,
    answers: Seq<PeerRecord>,
    same: spec_fn(PeerRecord, PeerRecord) -> bool,
) -> bool {
    &&& forall|i: int|
        0 <= i < list.len() ==> {
            &&& 0 <= last_place(answers, #[trigger] list[i], same) < answers.len()
            &&& answers[last_place(answers, list[i], same)] == list[i]
        }
    &&& forall|i: int, j: int|
        0 <= i < j < list.len() ==> last_place(answers, #[trigger] list[i], same) > last_place(
            answers,
            #[trigger] list[j],
            same,
        )
}

proof fn lemma_filter_keeps_order(
    list: Seq<PeerRecord>,
    answers: Seq<PeerRecord>,
    same: spec_fn(PeerRecord, PeerRecord) -> bool,
    pred: spec_fn(PeerRecord) -> bool,
)
    requires
        in_latest_order(list, answers, same),
    ensures
        in_latest_order(list.filter(pred), answers, same),
    decreases list.len(),
{
    reveal(Seq::filter);
    if list.len() > 0 {
        let front = list.drop_last();
        let kept = front.filter(pred);
        let all = list.filter(pred);
        assert(in_latest_order(front, answers, same)) by {
            assert forall|i: int| 0 <= i < front.len() implies {
                &&& 0 <= last_place(answers, #[trigger] front[i], same) < answers.len()
                &&& answers[last_place(answers, front[i], same)] == front[i]
            } by {
                assert(front[i] == list[i]);
            }
            assert forall|i: int, j: int| 0 <= i < j < front.len() implies last_place(
                answers,
                #[trigger] front[i],
                same,
            ) > last_place(answers, #[trigger] front[j], same) by {
                assert(front[i] == list[i] && front[j] == list[j]);
            }
        }
        lemma_filter_keeps_order(front, answers, same, pred);
        lemma_filter_places(front, pred);
        assert forall|i: int| 0 <= i < all.len() implies {
            &&& 0 <= last_place(answers, #[trigger] all[i], same) < answers.len()
            &&& answers[last_place(answers, all[i], same)] == all[i]
        } by {
            if i < kept.len() {
                assert(all[i] == kept[i]);
            } else {
                assert(all[i] == list[list.len() - 1]);
            }
        }
        assert forall|i: int, j: int| 0 <= i < j < all.len() implies last_place(
            answers,
            #[trigger] all[i],
            same,
        ) > last_place(answers, #[trigger] all[j], same) by {
            assert(all[i] == kept[i]);
            if j < kept.len() {
                assert(all[j] == kept[j]);
            } else {
                assert(kept.contains(kept[i]));
                let k = choose|k: int| 0 <= k < front.len() && front[k] == kept[i];
                assert(list[k] == kept[i]);
                assert(list[list.len() - 1] == all[j]);
            }
        }
    }
}

/// Who answered last comes first, nobody comes twice, and everybody who answered
/// comes.
proof fn lemma_latest_first(
    answers: Seq<PeerRecord>,
    same: spec_fn(PeerRecord, PeerRecord) -> bool,
)
    requires
        sorts_peers(same),
    ensures
        all_differ(latest_first(answers, same), same),
        in_latest_order(latest_first(answers, same), answers, same),
        forall|x: PeerRecord| #[trigger]
            has_answer_of(latest_first(answers, same), x, same) <==> has_answer_of(
                answers,
                x,
                same,
            ),
    decreases answers.len(),
{
    if answers.len() > 0 {
        let front = answers.drop_last();
        let last = answers.last();
        let before = latest_first(front, same);
        let rest = before.filter(unlike(last, same));
        let all = latest_first(answers, same);
        lemma_latest_first(front, same);
        lemma_filter_differ(before, unlike(last, same), same);
        lemma_filter_places(before, unlike(last, same));
        lemma_filter_keeps_order(before, front, same, unlike(last, same));
        assert(all[0] == last);
        assert(same_owner(last, last));
        assert forall|i: int| 0 <= i < rest.len() implies !same(#[trigger] rest[i], last) && !same(
            last,
            rest[i],
        ) by {
            assert(rest.contains(rest[i]));
            assert(unlike(last, same)(rest[i]));
        }
        assert forall|i: int, j: int|
            0 <= i < all.len() && 0 <= j < all.len() && i != j implies !same(
            #[trigger] all[i],
            #[trigger] all[j],
        ) by {
            if i > 0 {
                assert(all[i] == rest[i - 1]);
            }
            if j > 0 {
                assert(all[j] == rest[j - 1]);
            }
        }
        assert(same(last, last));
        assert forall|i: int| 0 < i < all.len() implies last_place(answers, #[trigger] all[i], same)
            == last_place(front, rest[i - 1], same) && all[i] == rest[i - 1] by {
            assert(all[i] == rest[i - 1]);
            assert(!same(last, rest[i - 1]));
        }
        assert forall|i: int| 0 <= i < all.len() implies {
            &&& 0 <= last_place(answers, #[trigger] all[i], same) < answers.len()
            &&& answers[last_place(answers, all[i], same)] == all[i]
        } by {
            if i > 0 {
                let k = last_place(front, rest[i - 1], same);
                assert(front[k] == rest[i - 1]);
                assert(answers[k] == front[k]);
            }
        }
        assert forall|i: int, j: int| 0 <= i < j < all.len() implies last_place(
            answers,
            #[trigger] all[i],
            same,
        ) > last_place(answers, #[trigger] all[j], same) by {
            assert(last_place(front, rest[j - 1], same) < front.len());
            if i > 0 {
                assert(last_place(front, rest[i - 1], same) > last_place(front, rest[j - 1], same));
            }
        }
        assert forall|x: PeerRecord| #[trigger] has_answer_of(all, x, same) <==> has_answer_of(
            answers,
            x,
            same,
        ) by {
            lemma_has_answer_step(answers, x, same);
            lemma_has_answer_rest(before, last, x, same);
        }
    }
}

proof fn lemma_has_answer_step(
    answers: Seq<PeerRecord>,
    x: PeerRecord,
    same: spec_fn(PeerRecord, PeerRecord) -> bool,
)
    requires
        answers.len() > 0,
    ensures
        has_answer_of(answers, x, same) <==> has_answer_of(answers.drop_last(), x, same) || same(
            x,
            answers.last(),
        ),
{
    let front = answers.drop_last();
    assert(answers[answers.len() - 1] == answers.last());
    if has_answer_of(front, x, same) {
        let i = choose|i: int| 0 <= i < front.len() && same(x, #[trigger] front[i]);
        assert(answers[i] == front[i]);
    }
    if has_answer_of(answers, x, same) && !same(x, answers.last()) {
        let i = choose|i: int| 0 <= i < answers.len() && same(x, #[trigger] answers[i]);
        assert(front[i] == answers[i]);
    }
}

proof fn lemma_has_answer_rest(
    before: Seq<PeerRecord>,
    last: PeerRecord,
    x: PeerRecord,
    same: spec_fn(PeerRecord, PeerRecord) -> bool,
)
    requires
        sorts_peers(same),
    ensures
        has_answer_of(seq![last] + before.filter(unlike(last, same)), x, same) <==> has_answer_of(
            before,
            x,
            same,
        ) || same(x, last),
{
    let rest = before.filter(unlike(last, same));
    let all = seq![last] + rest;
    lemma_filter_places(before, unlike(last, same));
    assert(all[0] == last);
    if has_answer_of(all, x, same) && !same(x, last) {
        let i = choose|i: int| 0 <= i < all.len() && same(x, #[trigger] all[i]);
        assert(all[i] == rest[i - 1]);
        assert(rest.contains(rest[i - 1]));
        let k = choose|k: int| 0 <= k < before.len() && before[k] == rest[i - 1];
        assert(same(x, before[k]));
    }
    if has_answer_of(before, x, same) && !same(x, last) {
        let k = choose|k: int| 0 <= k < before.len() && same(x, #[trigger] before[k]);
        assert(!same(before[k], last));
        assert(before.contains(before[k]));
        assert(unlike(last, same)(before[k]));
        assert(rest.contains(before[k]));
        let i = choose|i: int| 0 <= i < rest.len() && rest[i] == before[k];
        assert(all[i + 1] == before[k]);
    }
}

/// What is gathered of a peer does not depend on which of its records asks.
proof fn lemma_gathered_of_same(
    answers: Seq<PeerRecord>,
    x: PeerRecord,
    y: PeerRecord,
    same: spec_fn(PeerRecord, PeerRecord) -> bool,
)
    requires
        sorts_peers(same),
        same(x, y),
        has_answer_of(answers, x, same),
    ensures
        gathered(answers, x, same) == gathered(answers, y, same),
    decreases answers.len(),
{
    let last = answers.last();
    assert(same(y, x));
    assert(same(last, x) <==> same(last, y));
    if !same(last, x) {
        lemma_has_answer_step(answers, x, same);
        assert(!same(x, last));
        lemma_gathered_of_same(answers.drop_last(), x, y, same);
    }
}

/// What is gathered of a peer is of that peer: the words of its last answer.
proof fn lemma_gathered_owner(
    answers: Seq<PeerRecord>,
    x: PeerRecord,
    same: spec_fn(PeerRecord, PeerRecord) -> bool,
)
    requires
        sorts_peers(same),
        has_answer_of(answers, x, same),
    ensures
        0 <= last_place(answers, x, same) < answers.len(),
        same_owner(answers[last_place(answers, x, same)], gathered(answers, x, same)),
        same(gathered(answers, x, same), x),
    decreases answers.len(),
{
    let last = answers.last();
    let g = gathered(answers, x, same);
    if !same(last, x) {
        lemma_has_answer_step(answers, x, same);
        if same(x, last) {
            assert(same(last, x));
        }
        lemma_gathered_owner(answers.drop_last(), x, same);
    } else {
        assert(same_owner(last, g));
        assert(same_owner(g, last));
        assert(same(g, last));
    }
}

/// The addresses that are gathered of a peer are those of its answers.
proof fn lemma_gathered_ips(
    answers: Seq<PeerRecord>,
    x: PeerRecord,
    same: spec_fn(PeerRecord, PeerRecord) -> bool,
)
    requires
        sorts_peers(same),
        ids_name_peers(answers, same),
        has_answer_of(answers, x, same),
        forall|i: int| 0 <= i < answers.len() ==> (#[trigger] answers[i]).online,
        forall|i: int|
            0 <= i < answers.len() ==> lan_peer::each_once(#[trigger] answers[i].ip_mac),
    ensures
        gathered(answers, x, same).online,
        lan_peer::each_once(gathered(answers, x, same).ip_mac),
        forall|ip: Seq<char>| #[trigger]
            lan_peer::lists(gathered(answers, x, same).ip_mac, ip) ==> gave_ip(
                answers,
                x,
                ip,
                same,
            ),
        peers_keep_ids(answers, same) ==> forall|ip: Seq<char>| #[trigger]
            lan_peer::lists(gathered(answers, x, same).ip_mac, ip) <== gave_ip(
                answers,
                x,
                ip,
                same,
            ),
    decreases answers.len(),
{
    let front = answers.drop_last();
    let last = answers.last();
    let n = answers.len() - 1;
    let g = gathered(answers, x, same);
    assert(answers[n] == last);
    assert(lan_peer::each_once(answers[n].ip_mac));
    lemma_front(answers, same);
    lemma_has_answer_step(answers, x, same);
    let again = ids_of(front).contains(last.id);
    if !same(last, x) {
        if same(x, last) {
            assert(same(last, x));
        }
        lemma_gathered_ips(front, x, same);
        assert forall|ip: Seq<char>| gave_ip(front, x, ip, same) == #[trigger] gave_ip(
            answers,
            x,
            ip,
            same,
        ) by {
            lemma_gave_step(answers, x, ip, same);
        }
        assert forall|ip: Seq<char>| #[trigger] lan_peer::lists(g.ip_mac, ip) implies gave_ip(
            answers,
            x,
            ip,
            same,
        ) by {
            assert(gave_ip(front, x, ip, same));
        }
    } else if again {
        let k = choose|k: int| 0 <= k < ids_of(front).len() && ids_of(front)[k] == last.id;
        assert(answers[k] == front[k]);
        assert(same(answers[k], answers[n]));
        assert(same(answers[n], answers[k]));
        assert(has_answer_of(front, last, same)) by {
            assert(same(last, front[k]));
        }
        lemma_gathered_ips(front, last, same);
        let old = gathered(front, last, same);
        replies::lemma_with_entries(last.ip_mac, old.ip_mac);
        assert forall|ip: Seq<char>|
            #![trigger lan_peer::lists(g.ip_mac, ip)]
            #![trigger gave_ip(answers, x, ip, same)]
            (lan_peer::lists(g.ip_mac, ip) ==> gave_ip(answers, x, ip, same)) && (peers_keep_ids(
                answers,
                same,
            ) && gave_ip(answers, x, ip, same) ==> lan_peer::lists(g.ip_mac, ip)) by {
            assert(lan_peer::lists(g.ip_mac, ip) <==> lan_peer::lists(last.ip_mac, ip)
                || lan_peer::lists(old.ip_mac, ip));
            lemma_gave_step(answers, x, ip, same);
            lemma_gave_same(front, last, x, ip, same);
        }
    } else {
        assert forall|ip: Seq<char>|
            #![trigger lan_peer::lists(g.ip_mac, ip)]
            #![trigger gave_ip(answers, x, ip, same)]
            (lan_peer::lists(g.ip_mac, ip) ==> gave_ip(answers, x, ip, same)) && (peers_keep_ids(
                answers,
                same,
            ) && gave_ip(answers, x, ip, same) ==> lan_peer::lists(g.ip_mac, ip)) by {
            lemma_gave_step(answers, x, ip, same);
            if peers_keep_ids(answers, same) && gave_ip(front, x, ip, same) {
                let k = choose|k: int|
                    0 <= k < front.len() && same(#[trigger] front[k], x) && lan_peer::lists(
                        front[k].ip_mac,
                        ip,
                    );
                assert(answers[k] == front[k]);
                assert(same(x, last));
                assert(same(answers[k], answers[n]));
                assert(ids_of(front)[k] == last.id);
            }
        }
    }
}

proof fn lemma_front(answers: Seq<PeerRecord>, same: spec_fn(PeerRecord, PeerRecord) -> bool)
    requires
        answers.len() > 0,
    ensures
        ids_name_peers(answers, same) ==> ids_name_peers(answers.drop_last(), same),
        peers_keep_ids(answers, same) ==> peers_keep_ids(answers.drop_last(), same),
        forall|i: int|
            #![trigger answers.drop_last()[i]]
            0 <= i < answers.len() - 1 ==> answers.drop_last()[i] == answers[i],
{
    let front = answers.drop_last();
    assert forall|i: int, j: int|
        #![trigger front[i], front[j]]
        0 <= i < front.len() && 0 <= j < front.len() implies front[i] == answers[i] && front[j]
        == answers[j] by {}
}

proof fn lemma_gave_step(
    answers: Seq<PeerRecord>,
    x: PeerRecord,
    ip: Seq<char>,
    same: spec_fn(PeerRecord, PeerRecord) -> bool,
)
    requires
        answers.len() > 0,
    ensures
        gave_ip(answers, x, ip, same) <==> gave_ip(answers.drop_last(), x, ip, same) || same(
            answers.last(),
            x,
        ) && lan_peer::lists(answers.last().ip_mac, ip),
{
    let front = answers.drop_last();
    let n = answers.len() - 1;
    assert(answers[n] == answers.last());
    if gave_ip(front, x, ip, same) {
        let k = choose|k: int|
            0 <= k < front.len() && same(#[trigger] front[k], x) && lan_peer::lists(
                front[k].ip_mac,
                ip,
            );
        assert(answers[k] == front[k]);
    }
    if gave_ip(answers, x, ip, same) {
        let k = choose|k: int|
            0 <= k < answers.len() && same(#[trigger] answers[k], x) && lan_peer::lists(
                answers[k].ip_mac,
                ip,
            );
        if k < n {
            assert(front[k] == answers[k]);
        }
    }
}

proof fn lemma_gave_same(
    answers: Seq<PeerRecord>,
    x: PeerRecord,
    y: PeerRecord,
    ip: Seq<char>,
    same: spec_fn(PeerRecord, PeerRecord) -> bool,
)
    requires
        sorts_peers(same),
        same(x, y),
    ensures
        gave_ip(answers, x, ip, same) <==> gave_ip(answers, y, ip, same),
{
    assert(same(y, x));
    if gave_ip(answers, x, ip, same) {
        let k = choose|k: int|
            0 <= k < answers.len() && same(#[trigger] answers[k], x) && lan_peer::lists(
                answers[k].ip_mac,
                ip,
            );
        assert(same(answers[k], y));
    }
    if gave_ip(answers, y, ip, same) {
        let k = choose|k: int|
            0 <= k < answers.len() && same(#[trigger] answers[k], y) && lan_peer::lists(
                answers[k].ip_mac,
                ip,
            );
        assert(same(answers[k], x));
    }
}

/// Where the record of the same peer as `peer` stands among `heads`, those of the
/// peers of `list`, and `silent`, and what is left of both without it.
proof fn lemma_place(
    list: Seq<PeerRecord>,
    heads: Seq<PeerRecord>,
    silent: Seq<PeerRecord>,
    peer: PeerRecord,
    flags: Seq<bool>,
    same: spec_fn(PeerRecord, PeerRecord) -> bool,
) -> (at: Option<int>)
    requires
        sorts_peers(same),
        heads.len() == list.len(),
        all_differ(list, same),
        all_differ(silent, same),
        forall|i: int| 0 <= i < silent.len() ==> !has_answer_of(list, #[trigger] silent[i], same),
        flags.len() == heads.len() + silent.len(),
        forall|i: int| 0 <= i < heads.len() ==> #[trigger] flags[i] == same(list[i], peer),
        forall|i: int|
            0 <= i < silent.len() ==> flags[heads.len() + i] == same(#[trigger] silent[i], peer),
    ensures
        replies::first_set(flags) == at,
        match at {
            Some(k) => if k < heads.len() {
                &&& 0 <= k
                &&& same(list[k], peer)
                &&& list.filter(unlike(peer, same)) == list.remove(k)
                &&& silent.filter(unlike(peer, same)) == silent
            } else {
                &&& k < heads.len() + silent.len()
                &&& !has_answer_of(list, peer, same)
                &&& list.filter(unlike(peer, same)) == list
                &&& silent.filter(unlike(peer, same)) == silent.remove(k - heads.len())
            },
            None => {
                &&& !has_answer_of(list, peer, same)
                &&& list.filter(unlike(peer, same)) == list
                &&& silent.filter(unlike(peer, same)) == silent
            },
        },
{
    let pred = unlike(peer, same);
    if has_answer_of(list, peer, same) {
        let k = choose|k: int| 0 <= k < list.len() && same(peer, #[trigger] list[k]);
        assert(same(list[k], peer));
        assert forall|i: int| 0 <= i < list.len() && i != k implies pred(#[trigger] list[i]) by {
            if same(list[i], peer) {
                assert(same(list[i], list[k]));
            }
        }
        assert forall|i: int| 0 <= i < k implies !#[trigger] flags[i] by {
            assert(pred(list[i]));
        }
        assert(flags[k]);
        lemma_first_set_at(flags, k);
        lemma_filter_all_but(list, pred, k);
        assert forall|i: int| 0 <= i < silent.len() implies pred(#[trigger] silent[i]) by {
            if same(silent[i], peer) {
                assert(same(silent[i], list[k]));
                assert(has_answer_of(list, silent[i], same));
            }
        }
        lemma_filter_all(silent, pred);
        Some(k)
    } else {
        assert forall|i: int| 0 <= i < list.len() implies pred(#[trigger] list[i]) by {
            if same(list[i], peer) {
                assert(same(peer, list[i]));
            }
        }
        lemma_filter_all(list, pred);
        if exists|k: int| 0 <= k < silent.len() && same(#[trigger] silent[k], peer) {
            let k = choose|k: int| 0 <= k < silent.len() && same(#[trigger] silent[k], peer);
            let at = heads.len() + k;
            assert(same(peer, silent[k]));
            assert forall|i: int| 0 <= i < silent.len() && i != k implies pred(
                #[trigger] silent[i],
            ) by {
                if same(silent[i], peer) {
                    assert(same(silent[i], silent[k]));
                }
            }
            assert forall|i: int| 0 <= i < at implies !#[trigger] flags[i] by {
                if i < heads.len() {
                    assert(pred(list[i]));
                } else {
                    assert(pred(silent[i - heads.len()]));
                }
            }
            assert(flags[at]);
            lemma_first_set_at(flags, at);
            lemma_filter_all_but(silent, pred, k);
            Some(at)
        } else {
            assert forall|i: int| 0 <= i < silent.len() implies pred(#[trigger] silent[i]) by {}
            assert forall|i: int| 0 <= i < flags.len() implies !#[trigger] flags[i] by {
                if i < heads.len() {
                    assert(pred(list[i]));
                } else {
                    assert(pred(silent[i - heads.len()]));
                }
            }
            lemma_first_set_none(flags);
            lemma_filter_all(silent, pred);
            None
        }
    }
}

/// What stands in the list before an answer, and where `same` finds the peer.
proof fn lemma_flags(
    known: Seq<PeerRecord>,
    front: Seq<PeerRecord>,
    peer: PeerRecord,
    same: spec_fn(PeerRecord, PeerRecord) -> bool,
)
    requires
        sorts_peers(same),
        all_differ(known, same),
    ensures
        ({
            let list = latest_first(front, same);
            let heads = responders(front, list, same);
            let silent = silent_peers(known, front, same);
            let flags = same_flags(heads + silent, peer, same);
            &&& heads.len() == list.len()
            &&& all_differ(silent, same)
            &&& forall|i: int|
                0 <= i < silent.len() ==> !has_answer_of(list, #[trigger] silent[i], same)
            &&& flags.len() == heads.len() + silent.len()
            &&& forall|i: int|
                0 <= i < heads.len() ==> #[trigger] flags[i] == same(list[i], peer)
            &&& forall|i: int|
                0 <= i < silent.len() ==> flags[heads.len() + i] == same(
                    #[trigger] silent[i],
                    peer,
                )
        }),
{
    let list = latest_first(front, same);
    let heads = responders(front, list, same);
    let silent = silent_peers(known, front, same);
    let before = heads + silent;
    let flags = same_flags(before, peer, same);
    lemma_latest_first(front, same);
    lemma_filter_differ(known, unanswered(front, same), same);
    lemma_filter_places(known, unanswered(front, same));
    assert forall|i: int| 0 <= i < heads.len() implies #[trigger] flags[i] == same(
        list[i],
        peer,
    ) by {
        assert(same_owner(list[i], list[i]));
        assert(same(list[i], list[i]));
        assert(has_answer_of(list, list[i], same));
        lemma_gathered_owner(front, list[i], same);
        assert(before[i] == heads[i]);
        assert(heads[i] == gathered(front, list[i], same));
        assert(flags[i] == same(heads[i], peer));
        assert(same(list[i], heads[i]));
    }
    assert forall|i: int| 0 <= i < silent.len() implies !has_answer_of(
        list,
        #[trigger] silent[i],
        same,
    ) by {
        assert(silent.contains(silent[i]));
        assert(unanswered(front, same)(silent[i]));
    }
    assert forall|i: int| 0 <= i < silent.len() implies flags[heads.len() + i] == same(
        #[trigger] silent[i],
        peer,
    ) by {
        assert(before[heads.len() + i] == silent[i]);
    }
}

/// What the responders are after one more answer.
proof fn lemma_responders_step(
    answers: Seq<PeerRecord>,
    same: spec_fn(PeerRecord, PeerRecord) -> bool,
)
    requires
        answers.len() > 0,
        sorts_peers(same),
    ensures
        ({
            let front = answers.drop_last();
            let peer = answers.last();
            responders(answers, latest_first(answers, same), same) == seq![
                gathered(answers, peer, same),
            ] + responders(front, latest_first(front, same).filter(unlike(peer, same)), same)
        }),
{
    let front = answers.drop_last();
    let peer = answers.last();
    let list = latest_first(front, same);
    let rest = list.filter(unlike(peer, same));
    lemma_filter_places(list, unlike(peer, same));
    assert forall|i: int| 0 <= i < rest.len() implies gathered(answers, #[trigger] rest[i], same)
        == gathered(front, rest[i], same) by {
        assert(rest.contains(rest[i]));
        assert(unlike(peer, same)(rest[i]));
        if same(peer, rest[i]) {
            assert(same(rest[i], peer));
        }
    }
    let all = responders(answers, seq![peer] + rest, same);
    let parts = seq![gathered(answers, peer, same)] + responders(front, rest, same);
    assert forall|i: int| 0 <= i < all.len() implies all[i] == parts[i] by {
        if i > 0 {
            assert((seq![peer] + rest)[i] == rest[i - 1]);
            assert(gathered(answers, rest[i - 1], same) == gathered(front, rest[i - 1], same));
        }
    }
    assert(all == parts);
}

/// The list `heads` and `silent` after an answer whose record was at place `at`.
proof fn lemma_after_answer(
    heads: Seq<PeerRecord>,
    silent: Seq<PeerRecord>,
    peer: PeerRecord,
    at: Option<int>,
    again: bool,
)
    requires
        at matches Some(k) ==> 0 <= k < heads.len() + silent.len(),
    ensures
        replies::after_answer(heads + silent, peer, at, again) == match at {
            Some(k) => if k < heads.len() {
                seq![
                    if again {
                        replies::merged(peer, heads[k])
                    } else {
                        peer
                    },
                ] + heads.remove(k) + silent
            } else {
                seq![
                    if again {
                        replies::merged(peer, silent[k - heads.len()])
                    } else {
                        peer
                    },
                ] + heads + silent.remove(k - heads.len())
            },
            None => seq![peer] + heads + silent,
        },
{
    if let Some(k) = at {
        if k < heads.len() {
            assert((heads + silent).remove(k) == heads.remove(k) + silent);
        } else {
            assert((heads + silent).remove(k) == heads + silent.remove(k - heads.len()));
        }
    }
}

/// One more answer, where the list before it is as it should be.
proof fn lemma_round_step(
    known: Seq<PeerRecord>,
    answers: Seq<PeerRecord>,
    same: spec_fn(PeerRecord, PeerRecord) -> bool,
)
    requires
        answers.len() > 0,
        sorts_peers(same),
        all_differ(known, same),
        ids_name_peers(answers, same),
        after_round(known, answers.drop_last(), same) == responders(
            answers.drop_last(),
            latest_first(answers.drop_last(), same),
            same,
        ) + silent_peers(known, answers.drop_last(), same),
    ensures
        after_round(known, answers, same) == responders(
            answers,
            latest_first(answers, same),
            same,
        ) + silent_peers(known, answers, same),
{
    let front = answers.drop_last();
    let peer = answers.last();
    let ids = ids_of(front);
    let again = ids.contains(peer.id);
    let list = latest_first(front, same);
    let heads = responders(front, list, same);
    let silent = silent_peers(known, front, same);
    let flags = same_flags(heads + silent, peer, same);
    assert(same_owner(peer, peer));
    lemma_latest_first(front, same);
    lemma_flags(known, front, peer, same);
    let at = lemma_place(list, heads, silent, peer, flags, same);
    lemma_after_answer(heads, silent, peer, at, again);
    lemma_responders_step(answers, same);
    lemma_silent_step(known, answers, same);
    if again {
        let k = choose|k: int| 0 <= k < ids.len() && ids[k] == peer.id;
        let n = answers.len() - 1;
        assert(answers[k] == front[k] && answers[n] == peer);
        assert(same(answers[n], answers[k]));
        assert(has_answer_of(front, peer, same)) by {
            assert(same(peer, front[k]));
        }
        assert(has_answer_of(list, peer, same));
    }
    let rest = list.filter(unlike(peer, same));
    assert(responders(front, rest, same) == match at {
        Some(k) => if k < heads.len() {
            heads.remove(k)
        } else {
            heads
        },
        None => heads,
    }) by {
        if let Some(k) = at {
            if k < heads.len() {
                assert(responders(front, list.remove(k), same) == heads.remove(k));
            }
        }
    }
    if let Some(k) = at {
        if k < heads.len() {
            assert(same_owner(list[k], list[k]));
            assert(same(list[k], list[k]));
            assert(has_answer_of(list, list[k], same));
            lemma_gathered_of_same(front, list[k], peer, same);
            assert(heads[k] == gathered(front, peer, same));
        }
    }
}

proof fn lemma_round(
    known: Seq<PeerRecord>,
    answers: Seq<PeerRecord>,
    same: spec_fn(PeerRecord, PeerRecord) -> bool,
)
    requires
        sorts_peers(same),
        all_differ(known, same),
        ids_name_peers(answers, same),
    ensures
        after_round(known, answers, same) == responders(
            answers,
            latest_first(answers, same),
            same,
        ) + silent_peers(known, answers, same),
    decreases answers.len(),
{
    if answers.len() == 0 {
        lemma_filter_all(known, unanswered(answers, same));
        assert(responders(answers, latest_first(answers, same), same) + known == known);
    } else {
        lemma_front(answers, same);
        lemma_round(known, answers.drop_last(), same);
        lemma_round_step(known, answers, same);
    }
}

/// After a round the list holds each peer that answered once, the one that answered
/// last first, and behind them the peers that did not, as they were and in the order
/// in which they were. What is known of a peer that answered is what it said last,
/// that it is online, and addresses that it gave in this round and no others, each
/// once: all of them, where no peer answers under two ids. This holds however peers
/// are told apart, where no peer is known twice and answers under one id are of one
/// peer.
pub proof fn law_round_lists_who_answered_then_who_did_not(
    known: Seq<PeerRecord>,
    answers: Seq<PeerRecord>,
    same: spec_fn(PeerRecord, PeerRecord) -> bool,
)
    requires
        sorts_peers(same),
        all_differ(known, same),
        ids_name_peers(answers, same),
        forall|i: int| 0 <= i < answers.len() ==> (#[trigger] answers[i]).online,
        forall|i: int|
            0 <= i < answers.len() ==> lan_peer::each_once(#[trigger] answers[i].ip_mac),
    ensures
        ({
            let order = latest_first(answers, same);
            let list = after_round(known, answers, same);
            let n = order.len() as int;
            &&& list == responders(answers, order, same) + silent_peers(known, answers, same)
            &&& all_differ(order, same)
            &&& forall|x: PeerRecord| #[trigger]
                has_answer_of(order, x, same) <==> has_answer_of(answers, x, same)
            &&& forall|i: int|
                0 <= i < n ==> {
                    &&& 0 <= last_place(answers, #[trigger] order[i], same) < answers.len()
                    &&& answers[last_place(answers, order[i], same)] == order[i]
                }
            &&& forall|i: int, j: int|
                0 <= i < j < n ==> last_place(answers, #[trigger] order[i], same) > last_place(
                    answers,
                    #[trigger] order[j],
                    same,
                )
            &&& forall|i: int|
                0 <= i < n ==> {
                    &&& same_owner(order[i], #[trigger] list[i])
                    &&& list[i].online
                    &&& lan_peer::each_once(list[i].ip_mac)
                    &&& forall|ip: Seq<char>| #[trigger]
                        lan_peer::lists(list[i].ip_mac, ip) ==> gave_ip(
                            answers,
                            order[i],
                            ip,
                            same,
                        )
                    &&& peers_keep_ids(answers, same) ==> forall|ip: Seq<char>| #[trigger]
                        lan_peer::lists(list[i].ip_mac, ip) <== gave_ip(
                            answers,
                            order[i],
                            ip,
                            same,
                        )
                }
        }),
{
    lemma_round(known, answers, same);
    let order = latest_first(answers, same);
    lemma_latest_first(answers, same);
    let list = after_round(known, answers, same);
    assert forall|i: int| 0 <= i < order.len() implies {
        &&& same_owner(order[i], #[trigger] list[i])
        &&& list[i].online
        &&& lan_peer::each_once(list[i].ip_mac)
        &&& forall|ip: Seq<char>| #[trigger]
            lan_peer::lists(list[i].ip_mac, ip) ==> gave_ip(answers, order[i], ip, same)
        &&& peers_keep_ids(answers, same) ==> forall|ip: Seq<char>| #[trigger]
            lan_peer::lists(list[i].ip_mac, ip) <== gave_ip(answers, order[i], ip, same)
    } by {
        assert(same_owner(order[i], order[i]));
        assert(same(order[i], order[i]));
        assert(has_answer_of(order, order[i], same));
        assert(list[i] == gathered(answers, order[i], same));
        lemma_gathered_owner(answers, order[i], same);
        lemma_gathered_ips(answers, order[i], same);
    }
}

} // verus!
