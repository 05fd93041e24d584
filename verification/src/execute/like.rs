use vstd::prelude::*;
use crate::error::{answers, storage_result, ContractError};
use crate::execute::tip::{commit_tip, plan_tip, tipped};
use crate::execute::Context;
use crate::keys::{fits_segment, pair_key, ranked_key};
use crate::models::{Response, ResponseView};
use crate::msg::LikeMsg;
use crate::state::{
    all_fit, fit_all, fits, load_config, load_header, record_header, NodeHeader, NodeHeaderView,
};
use crate::store::{garbles_nothing, Snapshot, Store};
use crate::text::{lowercase_all, lowercase_list};

verus! {

impl Snapshot {
    /// The store with `liker` entered as one who likes `node`, in both
    /// directions.
    pub open spec fn with_like(self, node: Seq<char>, liker: Seq<char>) -> Snapshot {
        Snapshot {
            addr_liked: self.addr_liked.insert(pair_key(liker, node)),
            liked_by: self.liked_by.insert(pair_key(node, liker)),
            ..self
        }
    }

    /// The store with `liker` no longer entered as one who likes `node`, in
    /// either direction.
    pub open spec fn without_like(self, node: Seq<char>, liker: Seq<char>) -> Snapshot {
        Snapshot {
            addr_liked: self.addr_liked.remove(pair_key(liker, node)),
            liked_by: self.liked_by.remove(pair_key(node, liker)),
            ..self
        }
    }
}

/// Whether `liker` likes `node`.
pub fn like_exists(store: &Store, node: &String, liker: &String) -> (r: bool)
    requires
        fits_segment(liker@),
    ensures
        r == store@.has_addr_liked(liker@, node@),
{
    store.has_addr_liked(liker, node)
}

/// Enters `liker` as one who likes `node`: in both directions, or in none.
pub fn set_like(store: &mut Store, node: &String, liker: &String) -> (r: Result<(), ContractError>)
    requires
        fits_segment(node@),
        fits_segment(liker@),
    ensures
        garbles_nothing(*old(store), *final(store)),
        r is Ok,
        final(store)@ == old(store)@.with_like(node@, liker@),
{
    storage_result(store.save_addr_liked(liker, node))?;
    storage_result(store.save_liked_by(node, liker))?;
    Ok(())
}

/// Removes `liker` from those who like `node`, in both directions.
pub fn clear_like(store: &mut Store, node: &String, liker: &String)
    requires
        fits_segment(node@),
        fits_segment(liker@),
    ensures
        garbles_nothing(*old(store), *final(store)),
        final(store)@ == old(store)@.without_like(node@, liker@),
{
    store.remove_addr_liked(liker, node);
    store.remove_liked_by(node, liker);
}

/// The index of children by rank, with `node` taken out at rank `from` and,
/// where there is a rank to go to, entered at that rank.
pub open spec fn reranked(ranked: Set<Seq<u8>>, parent: Seq<char>, node: Seq<char>, from: u32, to: Option<u32>) -> Set<
    Seq<u8>,
> {
    match to {
        Some(rank) => ranked.remove(ranked_key(parent, from, node)).insert(ranked_key(parent, rank, node)),
        None => ranked.remove(ranked_key(parent, from, node)),
    }
}

/// Moves a node under its parent from one rank to another, or takes it out
/// where there is no rank to go to. The old entry goes before the new one
/// comes, so that the node never stands at two ranks.
pub fn move_ranked(store: &mut Store, parent: &String, node: &String, from: u32, to: Option<u32>) -> (r: Result<
    (),
    ContractError,
>)
    requires
        fits_segment(parent@),
    ensures
        garbles_nothing(*old(store), *final(store)),
        r is Ok,
        final(store)@ == (Snapshot {
            ranked: reranked(old(store)@.ranked, parent@, node@, from, to),
            ..old(store)@
        }),
{
    store.remove_ranked(parent, from, node);
    match to {
        Some(rank) => {
            storage_result(store.save_ranked(parent, rank, node))?;
        },
        None => {},
    }
    Ok(())
}

/// The index of nodes by tag, with `node` moved from rank `from` to rank
/// `to` under each of `tags`.
pub open spec fn retagged(tagged: Set<Seq<u8>>, tags: Seq<Seq<char>>, node: Seq<char>, from: u32, to: u32) -> Set<
    Seq<u8>,
>
    decreases tags.len(),
{
    if tags.len() == 0 {
        tagged
    } else {
        retagged(tagged, tags.drop_last(), node, from, to).remove(
            ranked_key(tags.last(), from, node),
        ).insert(ranked_key(tags.last(), to, node))
    }
}

/// Moves a node from one rank to another under each of its tags, which are
/// given in lowercase.
pub fn move_tagged(store: &mut Store, lowered_tags: &Vec<String>, node: &String, from: u32, to: u32) -> (r:
    Result<(), ContractError>)
    requires
        all_fit(lowered_tags.deep_view()),
    ensures
        garbles_nothing(*old(store), *final(store)),
        r is Ok,
        final(store)@ == (Snapshot {
            tagged: retagged(old(store)@.tagged, lowered_tags.deep_view(), node@, from, to),
            ..old(store)@
        }),
{
    let ghost base = store@;
    let ghost lowered = lowered_tags.deep_view();
    let mut i: usize = 0;
    while i < lowered_tags.len()
        invariant
            0 <= i <= lowered_tags.len(),
            lowered == lowered_tags.deep_view(),
            all_fit(lowered),
            store@ == (Snapshot {
                tagged: retagged(base.tagged, lowered.take(i as int), node@, from, to),
                ..base
            }),
            garbles_nothing(*old(store), *store),
        decreases lowered_tags.len() - i,
    {
        assert(lowered[i as int] == lowered_tags[i as int]@);
        store.remove_tagged(&lowered_tags[i], from, node);
        storage_result(store.save_tagged(&lowered_tags[i], to, node))?;
        assert(lowered.take(i + 1).drop_last() =~= lowered.take(i as int));
        i = i + 1;
    }
    assert(lowered.take(i as int) =~= lowered);
    Ok(())
}

/// What a toggle does to the entry of a node under its parent.
#[derive(Clone, Copy, Debug, PartialEq, Eq, Structural)]
pub enum RankMove {
    /// The entry stays where it is.
    Stays,
    /// The entry moves to the given rank.
    MovesTo(u32),
    /// The entry is taken out.
    Leaves,
}

/// One step of the like state of a liker and a node.
#[derive(Clone, Copy, Debug, PartialEq, Eq, Structural)]
pub struct LikeStep {
    /// Whether the liker likes the node after the step.
    pub likes: bool,
    /// What becomes of the node's entry under its parent.
    pub rank: RankMove,
    /// Whether the node's entries under its tags move with it.
    pub tags_follow: bool,
}

/// The step that a toggle takes, from whether the liker likes the node and
/// from the node's count of likes. An unlike counts down, and takes the
/// entry out at zero; a like counts up, unless the count is at its ceiling.
/// Only a like moves the entries under the tags.
pub open spec fn like_step_of(liked: bool, n_likes: u32) -> LikeStep {
    if liked {
        LikeStep {
            likes: false,
            rank: if n_likes == 0 {
                RankMove::Stays
            } else if n_likes == 1 {
                RankMove::Leaves
            } else {
                RankMove::MovesTo((n_likes - 1) as u32)
            },
            tags_follow: false,
        }
    } else {
        LikeStep {
            likes: true,
            rank: if n_likes == u32::MAX {
                RankMove::Stays
            } else {
                RankMove::MovesTo((n_likes + 1) as u32)
            },
            tags_follow: n_likes < u32::MAX,
        }
    }
}

/// Decides the step that a toggle takes.
pub fn like_step(liked: bool, n_likes: u32) -> (r: LikeStep)
    ensures
        r == like_step_of(liked, n_likes),
{
    if liked {
        let rank = if n_likes == 0 {
            RankMove::Stays
        } else if n_likes == 1 {
            RankMove::Leaves
        } else {
            RankMove::MovesTo(n_likes - 1)
        };
        LikeStep { likes: false, rank, tags_follow: false }
    } else if n_likes < u32::MAX {
        LikeStep { likes: true, rank: RankMove::MovesTo(n_likes + 1), tags_follow: true }
    } else {
        LikeStep { likes: true, rank: RankMove::Stays, tags_follow: false }
    }
}

/// What a like or unlike leaves behind, given the node's header and the
/// lowercase forms of its tags.
///
/// Whether `liker` likes the node decides. Where they do, the like is
/// removed; a count above zero goes down by one, the node moves to the lower
/// rank under its parent, and at zero count and entry are gone: the index by
/// tag stays as it is. Where they do not, the like is entered; a count below
/// the ceiling goes up by one, and the node moves to the higher rank under
/// its parent and under each of its tags.
pub open spec fn like_applied(
    s: Snapshot,
    header: NodeHeaderView,
    node: Seq<char>,
    liker: Seq<char>,
    lowered: Seq<Seq<char>>,
) -> Snapshot {
    let n = s.like_count(node);
    let parent = header.parent_id;
    if s.has_addr_liked(liker, node) {
        let cleared = s.without_like(node, liker);
        if n == 0 {
            cleared
        } else if n == 1 {
            Snapshot {
                ranked: reranked(s.ranked, parent, node, n, None),
                likes: s.likes.remove(node),
                ..cleared
            }
        } else {
            Snapshot {
                ranked: reranked(s.ranked, parent, node, n, Some((n - 1) as u32)),
                likes: s.likes.insert(node, (n - 1) as u32),
                ..cleared
            }
        }
    } else {
        let set = s.with_like(node, liker);
        if n == u32::MAX {
            set
        } else {
            Snapshot {
                ranked: reranked(s.ranked, parent, node, n, Some((n + 1) as u32)),
                tagged: retagged(s.tagged, lowered, node, n, (n + 1) as u32),
                likes: s.likes.insert(node, (n + 1) as u32),
                ..set
            }
        }
    }
}

/// Whether a like of `node` by `liker` moves the node under its tags.
pub open spec fn moves_tags(s: Snapshot, node: Seq<char>, liker: Seq<char>) -> bool {
    like_step_of(s.has_addr_liked(liker, node), s.like_count(node)).tags_follow
}

/// What a toggle reads before it writes: the header of the node, whether
/// the liker likes it, its count of likes, and the lowercase forms of its
/// tags where they are to move. An id of node or liker too long for a key is
/// `InvalidInput`; a node without header is `NotFound`, and so is one
/// without tags where they are to move. A stored parent or tag too long for
/// a key is a fault of the storage.
pub open spec fn like_ready(s: Snapshot, node: Seq<char>, liker: Seq<char>) -> Result<
    (NodeHeaderView, bool, u32, Seq<Seq<char>>),
    ContractError,
> {
    if !fits_segment(node) || !fits_segment(liker) {
        Err(ContractError::InvalidInput)
    } else if !s.headers.contains_key(node) {
        Err(ContractError::NotFound)
    } else {
        let header = record_header(s.headers[node]);
        let liked = s.has_addr_liked(liker, node);
        let n = s.like_count(node);
        if !fits_segment(header.parent_id) {
            Err(ContractError::Storage)
        } else if !moves_tags(s, node, liker) {
            Ok((header, liked, n, Seq::empty()))
        } else if !s.tags.contains_key(node) {
            Err(ContractError::NotFound)
        } else if !all_fit(lowercase_all(s.tags[node])) {
            Err(ContractError::Storage)
        } else {
            Ok((header, liked, n, lowercase_all(s.tags[node])))
        }
    }
}

/// What `toggle_like` leaves behind, with the header of the node.
pub open spec fn like_toggled(s: Snapshot, node: Seq<char>, liker: Seq<char>) -> Result<
    (Snapshot, NodeHeaderView),
    ContractError,
> {
    match like_ready(s, node, liker) {
        Ok((header, _, _, lowered)) => Ok((like_applied(s, header, node, liker, lowered), header)),
        Err(e) => Err(e),
    }
}

/// The view of what a toggle has read.
pub open spec fn ready_view(ready: (NodeHeader, bool, u32, Vec<String>)) -> (
    NodeHeaderView,
    bool,
    u32,
    Seq<Seq<char>>,
) {
    (ready.0@, ready.1, ready.2, ready.3.deep_view())
}

/// Reads what a toggle needs, and writes nothing.
pub fn prepare_like(store: &Store, node_id: &String, liker: &String) -> (r: Result<
    (NodeHeader, bool, u32, Vec<String>),
    ContractError,
>)
    ensures
        answers(
            match r {
                Ok(ready) => Ok(ready_view(ready)),
                Err(e) => Err(e),
            },
            like_ready(store@, node_id@, liker@),
            store.is_intact(),
        ),
        !fits_segment(node_id@) || !fits_segment(liker@) ==> r == Err::<
            (NodeHeader, bool, u32, Vec<String>),
            ContractError,
        >(ContractError::InvalidInput),
{
    if !fits(node_id) || !fits(liker) {
        return Err(ContractError::InvalidInput);
    }
    let header = load_header(store, node_id)?;
    if !fits(&header.parent_id) {
        return Err(ContractError::Storage);
    }
    let n_likes: u32 = match storage_result(store.load_likes(node_id))? {
        Some(n) => n,
        None => 0,
    };
    let liked = like_exists(store, node_id, liker);
    let lowered: Vec<String> = if like_step(liked, n_likes).tags_follow {
        match storage_result(store.load_tags(node_id))? {
            Some(tags) => lowercase_list(&tags),
            None => {
                return Err(ContractError::NotFound);
            },
        }
    } else {
        Vec::new()
    };
    if !fit_all(&lowered) {
        return Err(ContractError::Storage);
    }
    assert(!moves_tags(store@, node_id@, liker@) ==> lowered.deep_view() =~= Seq::<Seq<char>>::empty());
    Ok((header, liked, n_likes, lowered))
}

/// Applies a like or unlike, given what `prepare_like` has read: whether the
/// liker likes the node, the node's count of likes and, where the node's
/// tags are to move, their lowercase forms. The call succeeds.
pub fn apply_like(
    store: &mut Store,
    header: &NodeHeader,
    node_id: &String,
    liker: &String,
    liked: bool,
    n_likes: u32,
    lowered_tags: &Vec<String>,
) -> (r: Result<(), ContractError>)
    requires
        fits_segment(node_id@),
        fits_segment(liker@),
        fits_segment(header@.parent_id),
        all_fit(lowered_tags.deep_view()),
        liked == old(store)@.has_addr_liked(liker@, node_id@),
        n_likes == old(store)@.like_count(node_id@),
    ensures
        garbles_nothing(*old(store), *final(store)),
        r is Ok,
        final(store)@ == like_applied(old(store)@, header@, node_id@, liker@, lowered_tags.deep_view()),
{
    let step = like_step(liked, n_likes);
    if step.likes {
        set_like(store, node_id, liker)?;
    } else {
        clear_like(store, node_id, liker);
    }
    match step.rank {
        RankMove::Stays => {},
        RankMove::MovesTo(next_n_likes) => {
            move_ranked(store, &header.parent_id, node_id, n_likes, Some(next_n_likes))?;
            if step.tags_follow {
                move_tagged(store, lowered_tags, node_id, n_likes, next_n_likes)?;
            }
            storage_result(store.save_likes(node_id, next_n_likes))?;
        },
        RankMove::Leaves => {
            move_ranked(store, &header.parent_id, node_id, n_likes, None)?;
            store.remove_likes(node_id);
        },
    }
    Ok(())
}

/// Likes a node for `liker`, or takes the like back where there is one.
/// Returns the node's header. A call that fails leaves the store as it was.
pub fn toggle_like(store: &mut Store, node_id: &String, liker: &String) -> (r: Result<
    NodeHeader,
    ContractError,
>)
    ensures
        garbles_nothing(*old(store), *final(store)),
        answers(
            match r {
                Ok(header) => Ok((final(store)@, header@)),
                Err(e) => Err(e),
            },
            like_toggled(old(store)@, node_id@, liker@),
            old(store).is_intact(),
        ),
        r is Err ==> final(store)@ == old(store)@,
        !fits_segment(node_id@) || !fits_segment(liker@) ==> r == Err::<NodeHeader, ContractError>(
            ContractError::InvalidInput,
        ),
{
    let (header, liked, n_likes, lowered) = prepare_like(store, node_id, liker)?;
    apply_like(store, &header, node_id, liker, liked, n_likes, &lowered)?;
    Ok(header)
}

/// What `exec_toggle_like` leaves behind and hands back: the like is
/// toggled, then the tip that came with it, if any, is applied. An id of
/// node or sender too long for a key is `InvalidInput`, whatever the store
/// holds.
pub open spec fn liked(s: Snapshot, sender: Seq<char>, node: Seq<char>, tip: Option<u128>) -> Result<
    (Snapshot, ResponseView),
    ContractError,
> {
    if !fits_segment(node) || !fits_segment(sender) {
        Err(ContractError::InvalidInput)
    } else {
        match s.configuration() {
            Err(e) => Err(e),
            Ok(config) => match like_toggled(s, node, sender) {
                Err(e) => Err(e),
                Ok((toggled, header)) => tipped(
                    toggled,
                    ResponseView::action("like"@),
                    config,
                    header.created_by,
                    tip,
                    node,
                ),
            },
        }
    }
}

/// Likes a node for the sender, or takes the sender's like back, and applies
/// the tip that came with the request. Everything is read and checked before
/// anything is written: a call that fails leaves the store as it was.
#[verifier::rlimit(40)]
pub fn exec_toggle_like(store: &mut Store, ctx: &Context, msg: LikeMsg) -> (r: Result<Response, ContractError>)
    ensures
        garbles_nothing(*old(store), *final(store)),
        answers(
            match r {
                Ok(resp) => Ok((final(store)@, resp@)),
                Err(e) => Err(e),
            },
            liked(old(store)@, ctx.sender@, msg.node_id@, msg.tip_amount),
            old(store).is_intact(),
        ),
        r is Err ==> final(store)@ == old(store)@,
        !fits_segment(msg.node_id@) || !fits_segment(ctx.sender@) ==> r == Err::<Response, ContractError>(
            ContractError::InvalidInput,
        ),
{
    let LikeMsg { node_id, tip_amount } = msg;
    if !fits(&node_id) || !fits(&ctx.sender) {
        return Err(ContractError::InvalidInput);
    }
    let config = load_config(store)?;
    let (header, liked, n_likes, lowered) = prepare_like(store, &node_id, &ctx.sender)?;
    let plan = match tip_amount {
        Some(amount) => Some(plan_tip(store, &config, amount, &node_id)?),
        None => None,
    };
    apply_like(store, &header, &node_id, &ctx.sender, liked, n_likes, &lowered)?;
    let resp = Response::action("like");
    match plan {
        Some(plan) => Ok(commit_tip(store, resp, &config, header.created_by, plan, &node_id)),
        None => Ok(resp),
    }
}

} // verus!
