use vstd::prelude::*;

verus! {

/// Whether a node's content still stands.
#[derive(Clone, Copy, Debug, PartialEq, Eq, Structural)]
pub enum NodeStatus {
    Normal,
    Deleted,
}

/// What payments are made in.
#[derive(Clone, Debug, PartialEq, Eq)]
pub enum Token {
    /// A native denomination.
    Denom(String),
    /// A token contract, by its address.
    Address(String),
}

/// A token, as contracts see it.
pub enum TokenView {
    Denom(Seq<char>),
    Address(Seq<char>),
}

impl View for Token {
    type V = TokenView;

    open spec fn view(&self) -> TokenView {
        match self {
            Token::Denom(d) => TokenView::Denom(d@),
            Token::Address(a) => TokenView::Address(a@),
        }
    }
}

/// Prices and fee rates for the various actions.
#[derive(Clone, Copy, Debug, PartialEq, Eq, Structural)]
pub struct FeeParams {
    /// Base cost of creating a post.
    pub creation: u128,
    /// Unit cost of a reaction.
    pub reaction: u128,
    /// Unit cost of each link attached to a post.
    pub link: u128,
    /// Unit cost of each block of 280 bytes of body text.
    pub text: u128,
    /// Unit cost of each tag.
    pub tag: u128,
    /// Fee rate applied to tips, in parts per million.
    pub tip_pct: u128,
}

/// The global configuration.
#[derive(Clone, Debug, PartialEq, Eq)]
pub struct Config {
    /// The token used for payments and fees.
    pub token: Token,
    /// Address that fees are sent to.
    pub fee_recipient: Option<String>,
    /// Prices and fee rates.
    pub fees: FeeParams,
}

/// A configuration, as contracts see it.
pub struct ConfigView {
    pub token: TokenView,
    pub fee_recipient: Option<Seq<char>>,
    pub fees: FeeParams,
}

impl View for Config {
    type V = ConfigView;

    open spec fn view(&self) -> ConfigView {
        ConfigView {
            token: self.token@,
            fee_recipient: self.fee_recipient.deep_view(),
            fees: self.fees,
        }
    }
}

/// A link attached to a post.
#[derive(Clone, Debug, PartialEq, Eq)]
pub enum Link {
    Generic { url: String, label: Option<String> },
    Image { url: String, label: Option<String> },
    Video { url: String, label: Option<String>, provider: String },
    Audio { url: String, label: Option<String>, provider: String },
}

/// A link, as contracts see it.
pub enum LinkView {
    Generic { url: Seq<char>, label: Option<Seq<char>> },
    Image { url: Seq<char>, label: Option<Seq<char>> },
    Video { url: Seq<char>, label: Option<Seq<char>>, provider: Seq<char> },
    Audio { url: Seq<char>, label: Option<Seq<char>>, provider: Seq<char> },
}

impl View for Link {
    type V = LinkView;

    open spec fn view(&self) -> LinkView {
        match self {
            Link::Generic { url, label } => LinkView::Generic { url: url@, label: label.deep_view() },
            Link::Image { url, label } => LinkView::Image { url: url@, label: label.deep_view() },
            Link::Video { url, label, provider } => LinkView::Video {
                url: url@,
                label: label.deep_view(),
                provider: provider@,
            },
            Link::Audio { url, label, provider } => LinkView::Audio {
                url: url@,
                label: label.deep_view(),
                provider: provider@,
            },
        }
    }
}

/// The links of a list, each by its view.
pub open spec fn links_view(links: Seq<Link>) -> Seq<LinkView> {
    links.map_values(|l: Link| l@)
}

/// One post or reply, assembled from its stored records.
#[derive(Clone, Debug, PartialEq, Eq)]
pub struct Node {
    pub id: String,
    /// Whether the node's content still stands.
    pub status: NodeStatus,
    /// Id of the parent node; empty for the root.
    pub parent_id: String,
    /// The node's reply counter, as it is stored: it starts at zero, and
    /// nothing in this library raises it.
    pub n_replies: u16,
    /// Number of reactions to the node.
    pub n_reactions: u16,
    /// Number of likes of the node.
    pub n_likes: u32,
    /// Total of the tips that the node has received.
    pub royalties: u128,
    /// Account that created the node.
    pub created_by: String,
    /// Block time at creation, in nanoseconds.
    pub created_at: u64,
    /// Block time of the last edit, in nanoseconds.
    pub updated_at: u64,
    pub title: String,
    pub body: Option<String>,
    pub links: Vec<Link>,
    pub tags: Vec<String>,
}

/// A node, as contracts see it.
pub struct NodeView {
    pub id: Seq<char>,
    pub status: NodeStatus,
    pub parent_id: Seq<char>,
    pub n_replies: u16,
    pub n_reactions: u16,
    pub n_likes: u32,
    pub royalties: u128,
    pub created_by: Seq<char>,
    pub created_at: u64,
    pub updated_at: u64,
    pub title: Seq<char>,
    pub body: Option<Seq<char>>,
    pub links: Seq<LinkView>,
    pub tags: Seq<Seq<char>>,
}

impl View for Node {
    type V = NodeView;

    open spec fn view(&self) -> NodeView {
        NodeView {
            id: self.id@,
            status: self.status,
            parent_id: self.parent_id@,
            n_replies: self.n_replies,
            n_reactions: self.n_reactions,
            n_likes: self.n_likes,
            royalties: self.royalties,
            created_by: self.created_by@,
            created_at: self.created_at,
            updated_at: self.updated_at,
            title: self.title@,
            body: self.body.deep_view(),
            links: links_view(self.links@),
            tags: self.tags.deep_view(),
        }
    }
}

/// The nodes of a list, each by its view.
pub open spec fn nodes_view(nodes: Seq<Node>) -> Seq<NodeView> {
    nodes.map_values(|n: Node| n@)
}

/// A transfer that the host is asked to make.
#[derive(Clone, Debug, PartialEq, Eq)]
pub struct Payment {
    pub recipient: String,
    pub amount: u128,
}

/// A payment, as contracts see it.
pub struct PaymentView {
    pub recipient: Seq<char>,
    pub amount: u128,
}

impl View for Payment {
    type V = PaymentView;

    open spec fn view(&self) -> PaymentView {
        PaymentView { recipient: self.recipient@, amount: self.amount }
    }
}

/// What a successful call hands back to the host: attributes that describe
/// it, and the payments to make once the call is committed.
#[derive(Clone, Debug, PartialEq, Eq)]
pub struct Response {
    pub attributes: Vec<(String, String)>,
    pub payments: Vec<Payment>,
}

/// A response, as contracts see it.
pub struct ResponseView {
    pub attributes: Seq<(Seq<char>, Seq<char>)>,
    pub payments: Seq<PaymentView>,
}

impl View for Response {
    type V = ResponseView;

    open spec fn view(&self) -> ResponseView {
        ResponseView {
            attributes: self.attributes.deep_view(),
            payments: self.payments@.map_values(|p: Payment| p@),
        }
    }
}

impl ResponseView {
    /// A response with one attribute, which names the action.
    pub open spec fn action(name: Seq<char>) -> ResponseView {
        ResponseView { attributes: seq![("action"@, name)], payments: Seq::empty() }
    }

    /// The response with one more attribute behind those it has.
    pub open spec fn with_attribute(self, key: Seq<char>, value: Seq<char>) -> ResponseView {
        ResponseView { attributes: self.attributes.push((key, value)), ..self }
    }

    /// The response with one more payment behind those it has.
    pub open spec fn with_payment(self, recipient: Seq<char>, amount: u128) -> ResponseView {
        ResponseView {
            payments: self.payments.push(PaymentView { recipient, amount }),
            ..self
        }
    }
}

impl Response {
    /// A response with one attribute, which names the action.
    pub fn action(name: &str) -> (r: Response)
        ensures
            r@ == ResponseView::action(name@),
    {
        let mut attributes: Vec<(String, String)> = Vec::new();
        attributes.push((String::from_str("action"), String::from_str(name)));
        let r = Response { attributes, payments: Vec::new() };
        assert(r@.attributes =~= seq![("action"@, name@)]);
        assert(r@.payments =~= Seq::empty());
        r
    }

    /// Adds an attribute behind those that are there.
    pub fn add_attribute(&mut self, key: &str, value: String)
        ensures
            final(self)@ == old(self)@.with_attribute(key@, value@),
    {
        self.attributes.push((String::from_str(key), value));
        assert(self@.attributes =~= old(self)@.attributes.push((key@, value@)));
    }

    /// Adds a payment behind those that are there.
    pub fn add_payment(&mut self, recipient: String, amount: u128)
        ensures
            final(self)@ == old(self)@.with_payment(recipient@, amount),
    {
        let ghost recipient_view = recipient@;
        self.payments.push(Payment { recipient, amount });
        assert(self@.payments =~= old(self)@.payments.push(
            PaymentView { recipient: recipient_view, amount },
        ));
    }
}

} // verus!
