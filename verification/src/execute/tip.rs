use vstd::prelude::*;
use crate::error::{answers, storage_result, ContractError};
use crate::math::{add_u128, lemma_ratio_bounded, mul_ratio_spec, mul_ratio_u128, sub_u128, PPM};
use crate::models::{Config, ConfigView, Response, ResponseView};
use crate::msg::TipMsg;
use crate::state::{load_config, load_header};
use crate::store::{garbles_nothing, Snapshot, Store};
use crate::text::{decimal, format_decimal};

verus! {

/// How a tip is split: the royalty for the node's creator, then the fee.
/// The fee is the tip times the rate, in parts per million, rounded down;
/// it is zero without a fee recipient. A fee that does not fit, or that
/// exceeds the tip, is an `Overflow`.
pub open spec fn tip_split(tip: u128, fee_recipient: Option<Seq<char>>, rate: u128) -> Result<
    (u128, u128),
    ContractError,
> {
    if fee_recipient is Some && rate != 0 {
        match mul_ratio_spec(tip, rate, PPM) {
            Ok(fee) => if fee > tip {
                Err(ContractError::Overflow)
            } else {
                Ok(((tip - fee) as u128, fee))
            },
            Err(e) => Err(e),
        }
    } else {
        Ok((tip, 0u128))
    }
}

/// At a rate of no more than the whole, every tip can be split, and royalty
/// and fee are together the tip.
pub proof fn lemma_tip_is_split_exactly(tip: u128, fee_recipient: Option<Seq<char>>, rate: u128)
    requires
        rate <= PPM,
    ensures
        tip_split(tip, fee_recipient, rate) is Ok,
        tip_split(tip, fee_recipient, rate)->Ok_0.0 + tip_split(tip, fee_recipient, rate)->Ok_0.1 == tip,
        tip_split(tip, fee_recipient, rate)->Ok_0.1 == (if fee_recipient is Some {
            (tip * rate) / (PPM as int)
        } else {
            0
        }),
{
    lemma_ratio_bounded(tip, rate, PPM);
    if rate == 0 {
        assert((tip * rate) / (PPM as int) == 0) by (nonlinear_arith)
            requires
                rate == 0,
                PPM == 1_000_000,
        ;
    }
}

/// Splits a tip into royalty and fee. Together they are the tip: nothing is
/// lost and nothing is made.
pub fn process_tip_amount(tip_amount: u128, config: &Config) -> (r: Result<(u128, u128), ContractError>)
    ensures
        r == tip_split(tip_amount, config@.fee_recipient, config.fees.tip_pct),
        match r {
            Ok((royalty, fee)) => royalty + fee == tip_amount,
            Err(e) => e == ContractError::Overflow,
        },
{
    let fee_amount: u128 = if config.fee_recipient.is_some() && config.fees.tip_pct != 0 {
        mul_ratio_u128(tip_amount, config.fees.tip_pct, PPM)?
    } else {
        0
    };
    let royalty_amount = sub_u128(tip_amount, fee_amount)?;
    Ok((royalty_amount, fee_amount))
}

impl Snapshot {
    /// The royalties that a node has received: zero where no total is
    /// stored.
    pub open spec fn royalties_of(self, node: Seq<char>) -> u128 {
        if self.node_royalties.contains_key(node) {
            self.node_royalties[node]
        } else {
            0
        }
    }
}

/// The response with the payments of a tip behind what it held: the fee, if
/// there is one, with its amount and recipient as attributes; then the
/// royalty as an attribute and its payment.
pub open spec fn paid(
    resp: ResponseView,
    fee_recipient: Option<Seq<char>>,
    creator: Seq<char>,
    royalty: u128,
    fee: u128,
) -> ResponseView {
    let with_fee = if fee != 0 && fee_recipient is Some {
        resp.with_payment(fee_recipient->Some_0, fee).with_attribute(
            "fee_amount"@,
            decimal(fee as nat),
        ).with_attribute("fee_recipient"@, fee_recipient->Some_0)
    } else {
        resp
    };
    with_fee.with_attribute("royalty_amount"@, decimal(royalty as nat)).with_payment(creator, royalty)
}

/// What a tip comes to: both royalty totals as they will stand, and the
/// royalty and the fee to pay.
#[derive(Clone, Copy, Debug, PartialEq, Eq, Structural)]
pub struct TipPlan {
    /// The total of all royalties, with the tip.
    pub total: u128,
    /// The node's royalties, with the tip.
    pub node_total: u128,
    /// What goes to the node's creator.
    pub royalty: u128,
    /// What goes to the fee recipient.
    pub fee: u128,
}

/// What a tip comes to in a given store. The whole tip is added to the
/// total of all royalties, which must be stored, and to the node's own; a
/// total that would leave its range is an `Overflow`.
pub open spec fn tip_planned(s: Snapshot, config: ConfigView, amount: u128, node: Seq<char>) -> Result<
    TipPlan,
    ContractError,
> {
    if s.royalties is None {
        Err(ContractError::NotFound)
    } else if s.royalties->Some_0 + amount > u128::MAX || s.royalties_of(node) + amount > u128::MAX {
        Err(ContractError::Overflow)
    } else {
        match tip_split(amount, config.fee_recipient, config.fees.tip_pct) {
            Err(e) => Err(e),
            Ok((royalty, fee)) => Ok(
                TipPlan {
                    total: (s.royalties->Some_0 + amount) as u128,
                    node_total: (s.royalties_of(node) + amount) as u128,
                    royalty,
                    fee,
                },
            ),
        }
    }
}

/// The store with the royalty totals of a tip written down.
pub open spec fn tip_written(s: Snapshot, node: Seq<char>, plan: TipPlan) -> Snapshot {
    Snapshot {
        royalties: Some(plan.total),
        node_royalties: s.node_royalties.insert(node, plan.node_total),
        ..s
    }
}

/// What a tip leaves behind and hands back: the royalty totals with the
/// whole tip added, and the response with the payments of fee and royalty.
/// Without a tip nothing changes.
pub open spec fn tipped(
    s: Snapshot,
    resp: ResponseView,
    config: ConfigView,
    creator: Seq<char>,
    tip: Option<u128>,
    node: Seq<char>,
) -> Result<(Snapshot, ResponseView), ContractError> {
    match tip {
        None => Ok((s, resp)),
        Some(amount) => match tip_planned(s, config, amount, node) {
            Err(e) => Err(e),
            Ok(plan) => Ok(
                (
                    tip_written(s, node, plan),
                    paid(resp, config.fee_recipient, creator, plan.royalty, plan.fee),
                ),
            ),
        },
    }
}

/// Works out what a tip comes to, and writes nothing.
pub fn plan_tip(store: &Store, config: &Config, tip_amount: u128, node_id: &String) -> (r: Result<
    TipPlan,
    ContractError,
>)
    ensures
        answers(r, tip_planned(store@, config@, tip_amount, node_id@), store.is_intact()),
{
    // The total of all tips.
    let total = match storage_result(store.load_royalties())? {
        Some(total) => total,
        None => {
            return Err(ContractError::NotFound);
        },
    };
    let total = add_u128(total, tip_amount)?;

    // The node's own total.
    let node_total: u128 = match storage_result(store.load_node_royalties(node_id))? {
        Some(n) => n,
        None => 0,
    };
    let node_total = add_u128(node_total, tip_amount)?;

    // Fee and royalty.
    let (royalty, fee) = process_tip_amount(tip_amount, config)?;
    Ok(TipPlan { total, node_total, royalty, fee })
}

/// Writes the royalty totals of a tip down and puts the payments of fee and
/// royalty into the response. The payments are made by the host, once the
/// call is committed.
pub fn commit_tip(
    store: &mut Store,
    resp: Response,
    config: &Config,
    tip_recipient: String,
    plan: TipPlan,
    node_id: &String,
) -> (out: Response)
    ensures
        garbles_nothing(*old(store), *final(store)),
        final(store)@ == tip_written(old(store)@, node_id@, plan),
        out@ == paid(resp@, config@.fee_recipient, tip_recipient@, plan.royalty, plan.fee),
{
    let _ = store.save_royalties(plan.total);
    let _ = store.save_node_royalties(node_id, plan.node_total);
    let mut resp = resp;
    if plan.fee != 0 {
        match &config.fee_recipient {
            Some(fee_recipient) => {
                resp.add_payment(fee_recipient.clone(), plan.fee);
                resp.add_attribute("fee_amount", format_decimal(plan.fee));
                resp.add_attribute("fee_recipient", fee_recipient.clone());
            },
            None => {},
        }
    }
    resp.add_attribute("royalty_amount", format_decimal(plan.royalty));
    resp.add_payment(tip_recipient, plan.royalty);
    resp
}

/// Applies the tip that came with a call, if one did: adds it to both
/// royalty totals and puts the payments of fee and royalty into the
/// response. Without a tip the call succeeds and changes nothing; a call
/// that fails leaves the store as it was.
pub fn apply_tip_if_exists(
    store: &mut Store,
    resp: Response,
    config: &Config,
    tip_recipient: String,
    tip_amount: Option<u128>,
    node_id: &String,
) -> (r: Result<Response, ContractError>)
    ensures
        garbles_nothing(*old(store), *final(store)),
        answers(
            match r {
                Ok(out) => Ok((final(store)@, out@)),
                Err(e) => Err(e),
            },
            tipped(old(store)@, resp@, config@, tip_recipient@, tip_amount, node_id@),
            old(store).is_intact(),
        ),
        r is Err ==> final(store)@ == old(store)@,
        tip_amount is None ==> r is Ok,
{
    match tip_amount {
        None => Ok(resp),
        Some(amount) => {
            let plan = plan_tip(store, config, amount, node_id)?;
            Ok(commit_tip(store, resp, config, tip_recipient, plan, node_id))
        },
    }
}

/// What `exec_tip` leaves behind and hands back: `NotFound` without a
/// configuration or without the node.
pub open spec fn tip_sent(s: Snapshot, node: Seq<char>, amount: u128) -> Result<
    (Snapshot, ResponseView),
    ContractError,
> {
    match s.configuration() {
        Err(e) => Err(e),
        Ok(config) => match s.header(node) {
            Err(e) => Err(e),
            Ok(header) => tipped(s, ResponseView::action("tip"@), config, header.created_by, Some(amount), node),
        },
    }
}

/// Sends a tip to the creator of a node. A call that fails leaves the store
/// as it was.
pub fn exec_tip(store: &mut Store, msg: TipMsg) -> (r: Result<Response, ContractError>)
    ensures
        garbles_nothing(*old(store), *final(store)),
        answers(
            match r {
                Ok(resp) => Ok((final(store)@, resp@)),
                Err(e) => Err(e),
            },
            tip_sent(old(store)@, msg.node_id@, msg.tip_amount),
            old(store).is_intact(),
        ),
        r is Err ==> final(store)@ == old(store)@,
{
    let TipMsg { node_id, tip_amount } = msg;
    let config = load_config(store)?;
    let header = load_header(store, &node_id)?;
    apply_tip_if_exists(store, Response::action("tip"), &config, header.created_by, Some(tip_amount), &node_id)
}

} // verus!
