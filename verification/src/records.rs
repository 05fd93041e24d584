use vstd::prelude::*;
use crate::models::{links_view, Config, ConfigView, FeeParams, Link, LinkView, Token, TokenView};
use crate::store::{ConfigModel, ConfigRecord, LinkModel, LinkRecord};

verus! {

/// The stored form of a link: its kind as a number, then its fields.
pub open spec fn link_record(l: LinkView) -> LinkModel {
    match l {
        LinkView::Generic { url, label } => (0u8, url, label, None),
        LinkView::Image { url, label } => (1u8, url, label, None),
        LinkView::Video { url, label, provider } => (2u8, url, label, Some(provider)),
        LinkView::Audio { url, label, provider } => (3u8, url, label, Some(provider)),
    }
}

/// The link that a stored form stands for, if it stands for one.
pub open spec fn record_link(m: LinkModel) -> Option<LinkView> {
    if m.0 == 0 && m.3 is None {
        Some(LinkView::Generic { url: m.1, label: m.2 })
    } else if m.0 == 1 && m.3 is None {
        Some(LinkView::Image { url: m.1, label: m.2 })
    } else if m.0 == 2 && m.3 is Some {
        Some(LinkView::Video { url: m.1, label: m.2, provider: m.3->Some_0 })
    } else if m.0 == 3 && m.3 is Some {
        Some(LinkView::Audio { url: m.1, label: m.2, provider: m.3->Some_0 })
    } else {
        None
    }
}

/// The stored forms of a list of links.
pub open spec fn link_records(links: Seq<LinkView>) -> Seq<LinkModel> {
    links.map_values(|l: LinkView| link_record(l))
}

/// Whether every stored form of the list stands for a link.
pub open spec fn are_links(records: Seq<LinkModel>) -> bool {
    forall|i: int| 0 <= i < records.len() ==> (#[trigger] record_link(records[i])) is Some
}

/// The links that a list of stored forms stands for.
pub open spec fn record_links(records: Seq<LinkModel>) -> Seq<LinkView> {
    records.map_values(|m: LinkModel| record_link(m)->Some_0)
}

/// A stored link reads back as the link it was made from.
pub proof fn lemma_link_round_trip(l: LinkView)
    ensures
        record_link(link_record(l)) == Some(l),
{
}

/// A stored list of links reads back as the list it was made from.
pub proof fn lemma_links_round_trip(links: Seq<LinkView>)
    ensures
        are_links(link_records(links)),
        record_links(link_records(links)) == links,
{
    assert forall|i: int| 0 <= i < links.len() implies record_link(#[trigger] link_records(links)[i])
        == Some(links[i]) by {
        lemma_link_round_trip(links[i]);
    }
    assert(record_links(link_records(links)) =~= links);
}

fn clone_label(label: &Option<String>) -> (r: Option<String>)
    ensures
        r.deep_view() == label.deep_view(),
{
    match label {
        Some(s) => Some(s.clone()),
        None => None,
    }
}

/// Puts a link into its stored form.
pub fn link_to_record(link: &Link) -> (r: LinkRecord)
    ensures
        r.deep_view() == link_record(link@),
{
    match link {
        Link::Generic { url, label } => (0u8, url.clone(), clone_label(label), None),
        Link::Image { url, label } => (1u8, url.clone(), clone_label(label), None),
        Link::Video { url, label, provider } => (2u8, url.clone(), clone_label(label), Some(provider.clone())),
        Link::Audio { url, label, provider } => (3u8, url.clone(), clone_label(label), Some(provider.clone())),
    }
}

/// Reads a link back from its stored form.
pub fn link_from_record(record: &LinkRecord) -> (r: Option<Link>)
    ensures
        match r {
            Some(l) => record_link(record.deep_view()) == Some(l@),
            None => record_link(record.deep_view()) is None,
        },
{
    let kind: u8 = record.0;
    match &record.3 {
        None => {
            if kind == 0 {
                Some(Link::Generic { url: record.1.clone(), label: clone_label(&record.2) })
            } else if kind == 1 {
                Some(Link::Image { url: record.1.clone(), label: clone_label(&record.2) })
            } else {
                None
            }
        },
        Some(provider) => {
            if kind == 2 {
                Some(
                    Link::Video {
                        url: record.1.clone(),
                        label: clone_label(&record.2),
                        provider: provider.clone(),
                    },
                )
            } else if kind == 3 {
                Some(
                    Link::Audio {
                        url: record.1.clone(),
                        label: clone_label(&record.2),
                        provider: provider.clone(),
                    },
                )
            } else {
                None
            }
        },
    }
}

/// Puts a list of links into its stored form.
pub fn links_to_records(links: &Vec<Link>) -> (r: Vec<LinkRecord>)
    ensures
        r.deep_view() == link_records(links_view(links@)),
{
    let mut out: Vec<LinkRecord> = Vec::new();
    let mut i: usize = 0;
    while i < links.len()
        invariant
            0 <= i <= links.len(),
            out.len() == i,
            forall|j: int| 0 <= j < i ==> (#[trigger] out[j]).deep_view() == link_record(links[j]@),
        decreases links.len() - i,
    {
        let record = link_to_record(&links[i]);
        out.push(record);
        i = i + 1;
    }
    assert(out.deep_view() =~= link_records(links_view(links@)));
    out
}

/// Reads a list of links back from its stored form; nothing where one of
/// them stands for no link.
pub fn links_from_records(records: &Vec<LinkRecord>) -> (r: Option<Vec<Link>>)
    ensures
        match r {
            Some(links) => are_links(records.deep_view()) && links_view(links@) == record_links(
                records.deep_view(),
            ),
            None => !are_links(records.deep_view()),
        },
{
    let mut links: Vec<Link> = Vec::new();
    let mut i: usize = 0;
    while i < records.len()
        invariant
            0 <= i <= records.len(),
            links.len() == i,
            forall|j: int|
                0 <= j < i ==> record_link(records.deep_view()[j]) == Some((#[trigger] links[j])@),
        decreases records.len() - i,
    {
        assert(records.deep_view()[i as int] == records[i as int].deep_view());
        match link_from_record(&records[i]) {
            None => {
                return None;
            },
            Some(link) => {
                links.push(link);
            },
        }
        i = i + 1;
    }
    proof {
        let all = records.deep_view();
        assert forall|j: int| 0 <= j < all.len() implies (#[trigger] record_link(all[j])) is Some by {
            assert(record_link(all[j]) == Some(links[j]@));
        }
        assert(links_view(links@) =~= record_links(all));
    }
    Some(links)
}

/// The stored form of a configuration.
pub open spec fn config_record(c: ConfigView) -> ConfigModel {
    (
        c.token is Address,
        match c.token {
            TokenView::Denom(d) => d,
            TokenView::Address(a) => a,
        },
        c.fee_recipient,
        (c.fees.creation, c.fees.reaction, c.fees.link, c.fees.text, c.fees.tag, c.fees.tip_pct),
    )
}

/// The configuration that a stored form stands for.
pub open spec fn record_config(m: ConfigModel) -> ConfigView {
    ConfigView {
        token: if m.0 {
            TokenView::Address(m.1)
        } else {
            TokenView::Denom(m.1)
        },
        fee_recipient: m.2,
        fees: FeeParams {
            creation: m.3.0,
            reaction: m.3.1,
            link: m.3.2,
            text: m.3.3,
            tag: m.3.4,
            tip_pct: m.3.5,
        },
    }
}

/// A stored configuration reads back as the one it was made from.
pub proof fn lemma_config_round_trip(c: ConfigView)
    ensures
        record_config(config_record(c)) == c,
{
}

/// Puts a configuration into its stored form.
pub fn config_to_record(config: &Config) -> (r: ConfigRecord)
    ensures
        r.deep_view() == config_record(config@),
{
    let (is_contract, id) = match &config.token {
        Token::Denom(d) => (false, d.clone()),
        Token::Address(a) => (true, a.clone()),
    };
    let f = config.fees;
    (is_contract, id, clone_label(&config.fee_recipient), (f.creation, f.reaction, f.link, f.text, f.tag, f.tip_pct))
}

/// Reads a configuration back from its stored form.
pub fn config_from_record(record: ConfigRecord) -> (r: Config)
    ensures
        r@ == record_config(record.deep_view()),
{
    let (is_contract, id, fee_recipient, f) = record;
    let token = if is_contract {
        Token::Address(id)
    } else {
        Token::Denom(id)
    };
    Config {
        token,
        fee_recipient,
        fees: FeeParams { creation: f.0, reaction: f.1, link: f.2, text: f.3, tag: f.4, tip_pct: f.5 },
    }
}

} // verus!
