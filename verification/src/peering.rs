//! Parsed RPSL peering expressions (RFC 2622 section 5.6) and the functions
//! that produce them from their lexed form.

use vstd::prelude::*;

use crate::aut_sys::{parse_as_name, spec_parse_as_name, AsName, AsNameView};
use crate::lex;
use crate::set::{spec_as_prefix_rest, spec_ci, spec_is_space, as_prefix_rest_index};

verus! {

/// A parsed peering: who the policy line speaks to, optionally narrowed by
/// router expressions.
#[derive(Debug)]
pub struct Peering {
    pub remote_as: AsExpr,
    pub remote_router: Option<RouterExpr>,
    pub local_router: Option<RouterExpr>,
}

/// A parsed peering bound to its action map.
#[derive(Debug)]
pub struct PeeringAction {
    pub mp_peering: Peering,
    pub actions: Vec<(String, String)>,
}

/// A parsed AS expression tree.
#[derive(Debug)]
pub enum AsExpr {
    Single(AsName),
    PeeringSet(String),
    And { left: Box<AsExpr>, right: Box<AsExpr> },
    Or { left: Box<AsExpr>, right: Box<AsExpr> },
    Except { left: Box<AsExpr>, right: Box<AsExpr> },
    Group(Box<AsExpr>),
}

/// A parsed router expression tree; only carried, never evaluated here.
#[derive(Debug)]
pub enum RouterExpr {
    Field(String),
    And { left: Box<RouterExpr>, right: Box<RouterExpr> },
    Or { left: Box<RouterExpr>, right: Box<RouterExpr> },
    Except { left: Box<RouterExpr>, right: Box<RouterExpr> },
    Group(Box<RouterExpr>),
}

/// Mathematical form of a parsed AS expression.
pub enum AsExprView {
    Single(AsNameView),
    PeeringSet(Seq<char>),
    And(Box<AsExprView>, Box<AsExprView>),
    Or(Box<AsExprView>, Box<AsExprView>),
    Except(Box<AsExprView>, Box<AsExprView>),
    Group(Box<AsExprView>),
}

/// Mathematical form of a router expression.
pub enum RouterExprView {
    Field(Seq<char>),
    And(Box<RouterExprView>, Box<RouterExprView>),
    Or(Box<RouterExprView>, Box<RouterExprView>),
    Except(Box<RouterExprView>, Box<RouterExprView>),
    Group(Box<RouterExprView>),
}

/// Mathematical form of a parsed peering.
pub struct PeeringView {
    pub remote_as: AsExprView,
    pub remote_router: Option<RouterExprView>,
    pub local_router: Option<RouterExprView>,
}

/// Mathematical form of a peering with actions.
pub struct PeeringActionView {
    pub mp_peering: PeeringView,
    pub actions: Seq<(Seq<char>, Seq<char>)>,
}

pub open spec fn as_expr_view(e: AsExpr) -> AsExprView
    decreases e,
{
    match e {
        AsExpr::Single(n) => AsExprView::Single(n@),
        AsExpr::PeeringSet(s) => AsExprView::PeeringSet(s@),
        AsExpr::And { left, right } => AsExprView::And(
            Box::new(as_expr_view(*left)),
            Box::new(as_expr_view(*right)),
        ),
        AsExpr::Or { left, right } => AsExprView::Or(
            Box::new(as_expr_view(*left)),
            Box::new(as_expr_view(*right)),
        ),
        AsExpr::Except { left, right } => AsExprView::Except(
            Box::new(as_expr_view(*left)),
            Box::new(as_expr_view(*right)),
        ),
        AsExpr::Group(inner) => AsExprView::Group(Box::new(as_expr_view(*inner))),
    }
}

pub open spec fn router_expr_view(e: RouterExpr) -> RouterExprView
    decreases e,
{
    match e {
        RouterExpr::Field(s) => RouterExprView::Field(s@),
        RouterExpr::And { left, right } => RouterExprView::And(
            Box::new(router_expr_view(*left)),
            Box::new(router_expr_view(*right)),
        ),
        RouterExpr::Or { left, right } => RouterExprView::Or(
            Box::new(router_expr_view(*left)),
            Box::new(router_expr_view(*right)),
        ),
        RouterExpr::Except { left, right } => RouterExprView::Except(
            Box::new(router_expr_view(*left)),
            Box::new(router_expr_view(*right)),
        ),
        RouterExpr::Group(inner) => RouterExprView::Group(Box::new(router_expr_view(*inner))),
    }
}

impl View for AsExpr {
    type V = AsExprView;

    open spec fn view(&self) -> AsExprView {
        as_expr_view(*self)
    }
}

impl View for RouterExpr {
    type V = RouterExprView;

    open spec fn view(&self) -> RouterExprView {
        router_expr_view(*self)
    }
}

impl View for Peering {
    type V = PeeringView;

    open spec fn view(&self) -> PeeringView {
        PeeringView {
            remote_as: self.remote_as@,
            remote_router: match self.remote_router {
                Some(r) => Some(r@),
                None => None,
            },
            local_router: match self.local_router {
                Some(r) => Some(r@),
                None => None,
            },
        }
    }
}

impl View for PeeringAction {
    type V = PeeringActionView;

    open spec fn view(&self) -> PeeringActionView {
        PeeringActionView {
            mp_peering: self.mp_peering@,
            actions: self.actions@.map_values(|p: (String, String)| (p.0@, p.1@)),
        }
    }
}


/// The body of a peering-set name: `prng-` and at least one further
/// character, none of them whitespace, case-insensitive on the letters.
pub open spec fn spec_prng_body(s: Seq<char>) -> bool {
    s.len() >= 6 && spec_ci(s[0], 'p') && spec_ci(s[1], 'r') && spec_ci(s[2], 'n') && spec_ci(
        s[3],
        'g',
    ) && s[4] == '-' && forall|i: int| 5 <= i < s.len() ==> !spec_is_space(#[trigger] s[i])
}

/// A peering-set name: a `prng-` body, optionally behind an `AS<digits>:`
/// prefix.
pub open spec fn spec_is_peering_set(s: Seq<char>) -> bool {
    spec_prng_body(s) || match spec_as_prefix_rest(s) {
        Some(rest) => spec_prng_body(rest),
        None => false,
    }
}

/// Whether the text from `k` on is a `prng-` body.
fn prng_body_at(s: &str, k: usize) -> (r: bool)
    requires
        k <= s@.len(),
    ensures
        r == spec_prng_body(s@.skip(k as int)),
{
    let n = s.unicode_len();
    if n - k < 6 {
        return false;
    }
    let c0 = s.get_char(k);
    let c1 = s.get_char(k + 1);
    let c2 = s.get_char(k + 2);
    let c3 = s.get_char(k + 3);
    let c4 = s.get_char(k + 4);
    proof {
        assert(s@.skip(k as int)[0] == s@[k as int]);
        assert(s@.skip(k as int)[1] == s@[k + 1]);
        assert(s@.skip(k as int)[2] == s@[k + 2]);
        assert(s@.skip(k as int)[3] == s@[k + 3]);
        assert(s@.skip(k as int)[4] == s@[k + 4]);
    }
    if !((c0 == 'p' || c0 == 'P') && (c1 == 'r' || c1 == 'R') && (c2 == 'n' || c2 == 'N') && (c3
        == 'g' || c3 == 'G') && c4 == '-') {
        return false;
    }
    let mut i: usize = k + 5;
    while i < n
        invariant
            k + 5 <= i <= n,
            n == s@.len(),
            forall|j: int| 5 <= j < i - k ==> !spec_is_space(#[trigger] s@.skip(k as int)[j]),
        decreases n - i,
    {
        let c = s.get_char(i);
        proof {
            assert(s@.skip(k as int)[i - k] == s@[i as int]);
        }
        if c == ' ' || c == '\t' || c == '\n' || c == '\r' || c == '\u{b}' || c == '\u{c}' {
            return false;
        }
        i = i + 1;
    }
    true
}

/// Whether the text names a peering-set (RFC 2622 section 5.6 name form).
pub fn is_peering_set(field: &str) -> (r: bool)
    ensures
        r == spec_is_peering_set(field@),
{
    proof {
        assert(field@.skip(0) =~= field@);
    }
    if prng_body_at(field, 0) {
        return true;
    }
    match as_prefix_rest_index(field) {
        Some(k) => prng_body_at(field, k),
        None => false,
    }
}

/// What parsing a single field yields: a peering-set name stays one, any
/// other field is read as an AS name.
pub open spec fn spec_parse_single_as_expr(s: Seq<char>) -> AsExprView {
    if spec_is_peering_set(s) {
        AsExprView::PeeringSet(s)
    } else {
        AsExprView::Single(spec_parse_as_name(s))
    }
}

/// Parse a single field of a peering expression.
pub fn parse_single_as_expr(single: String) -> (r: AsExpr)
    ensures
        r@ == spec_parse_single_as_expr(single@),
{
    if is_peering_set(single.as_str()) {
        AsExpr::PeeringSet(single)
    } else {
        AsExpr::Single(parse_as_name(single))
    }
}

/// What parsing a lexed AS expression yields.
pub open spec fn spec_parse_as_expr(e: lex::AsExpr) -> AsExprView
    decreases e,
{
    match e {
        lex::AsExpr::Field(s) => spec_parse_single_as_expr(s@),
        lex::AsExpr::AsComp(c) => spec_parse_complex_as_expr(c),
    }
}

/// What parsing a compound lexed AS expression yields.
pub open spec fn spec_parse_complex_as_expr(c: lex::ComplexAsExpr) -> AsExprView
    decreases c,
{
    match c {
        lex::ComplexAsExpr::And { left, right } => AsExprView::And(
            Box::new(spec_parse_as_expr(*left)),
            Box::new(spec_parse_as_expr(*right)),
        ),
        lex::ComplexAsExpr::Or { left, right } => AsExprView::Or(
            Box::new(spec_parse_as_expr(*left)),
            Box::new(spec_parse_as_expr(*right)),
        ),
        lex::ComplexAsExpr::Except { left, right } => AsExprView::Except(
            Box::new(spec_parse_as_expr(*left)),
            Box::new(spec_parse_as_expr(*right)),
        ),
        lex::ComplexAsExpr::Group(inner) => AsExprView::Group(Box::new(spec_parse_as_expr(*inner))),
    }
}

/// Parse a lexed AS expression.
pub fn parse_as_expr(as_expr: lex::AsExpr) -> (r: AsExpr)
    ensures
        r@ == spec_parse_as_expr(as_expr),
    decreases as_expr,
{
    match as_expr {
        lex::AsExpr::Field(single) => parse_single_as_expr(single),
        lex::AsExpr::AsComp(comp) => parse_complex_as_expr(comp),
    }
}

/// Parse a compound lexed AS expression.
pub fn parse_complex_as_expr(comp: lex::ComplexAsExpr) -> (r: AsExpr)
    ensures
        r@ == spec_parse_complex_as_expr(comp),
    decreases comp,
{
    match comp {
        lex::ComplexAsExpr::And { left, right } => AsExpr::And {
            left: Box::new(parse_as_expr(*left)),
            right: Box::new(parse_as_expr(*right)),
        },
        lex::ComplexAsExpr::Or { left, right } => AsExpr::Or {
            left: Box::new(parse_as_expr(*left)),
            right: Box::new(parse_as_expr(*right)),
        },
        lex::ComplexAsExpr::Except { left, right } => AsExpr::Except {
            left: Box::new(parse_as_expr(*left)),
            right: Box::new(parse_as_expr(*right)),
        },
        lex::ComplexAsExpr::Group(group) => AsExpr::Group(Box::new(parse_as_expr(*group))),
    }
}

/// What parsing a router expression yields: the structure is kept, the
/// fields carried as written.
pub open spec fn spec_parse_router_expr(e: lex::AsExpr) -> RouterExprView
    decreases e,
{
    match e {
        lex::AsExpr::Field(s) => RouterExprView::Field(s@),
        lex::AsExpr::AsComp(c) => match c {
            lex::ComplexAsExpr::And { left, right } => RouterExprView::And(
                Box::new(spec_parse_router_expr(*left)),
                Box::new(spec_parse_router_expr(*right)),
            ),
            lex::ComplexAsExpr::Or { left, right } => RouterExprView::Or(
                Box::new(spec_parse_router_expr(*left)),
                Box::new(spec_parse_router_expr(*right)),
            ),
            lex::ComplexAsExpr::Except { left, right } => RouterExprView::Except(
                Box::new(spec_parse_router_expr(*left)),
                Box::new(spec_parse_router_expr(*right)),
            ),
            lex::ComplexAsExpr::Group(inner) => RouterExprView::Group(
                Box::new(spec_parse_router_expr(*inner)),
            ),
        },
    }
}

/// Parse a router expression.
pub fn parse_router_expr(e: lex::AsExpr) -> (r: RouterExpr)
    ensures
        r@ == spec_parse_router_expr(e),
    decreases e,
{
    match e {
        lex::AsExpr::Field(s) => RouterExpr::Field(s),
        lex::AsExpr::AsComp(c) => match c {
            lex::ComplexAsExpr::And { left, right } => RouterExpr::And {
                left: Box::new(parse_router_expr(*left)),
                right: Box::new(parse_router_expr(*right)),
            },
            lex::ComplexAsExpr::Or { left, right } => RouterExpr::Or {
                left: Box::new(parse_router_expr(*left)),
                right: Box::new(parse_router_expr(*right)),
            },
            lex::ComplexAsExpr::Except { left, right } => RouterExpr::Except {
                left: Box::new(parse_router_expr(*left)),
                right: Box::new(parse_router_expr(*right)),
            },
            lex::ComplexAsExpr::Group(inner) => RouterExpr::Group(
                Box::new(parse_router_expr(*inner)),
            ),
        },
    }
}

/// What parsing a lexed peering yields.
pub open spec fn spec_parse_mp_peering(p: lex::Peering) -> PeeringView {
    PeeringView {
        remote_as: spec_parse_as_expr(p.as_expr),
        remote_router: match p.router_expr1 {
            Some(e) => Some(spec_parse_router_expr(e)),
            None => None,
        },
        local_router: match p.router_expr2 {
            Some(e) => Some(spec_parse_router_expr(e)),
            None => None,
        },
    }
}

/// Parse a lexed peering.
pub fn parse_mp_peering(mp_peering: lex::Peering) -> (r: Peering)
    ensures
        r@ == spec_parse_mp_peering(mp_peering),
{
    let lex::Peering { as_expr, router_expr1, router_expr2 } = mp_peering;
    let remote_as = parse_as_expr(as_expr);
    let remote_router = match router_expr1 {
        Some(e) => Some(parse_router_expr(e)),
        None => None,
    };
    let local_router = match router_expr2 {
        Some(e) => Some(parse_router_expr(e)),
        None => None,
    };
    Peering { remote_as, remote_router, local_router }
}

/// What parsing a lexed peering with actions yields: the action map is
/// carried over as it stands.
pub open spec fn spec_parse_peering_action(pa: lex::PeeringAction) -> PeeringActionView {
    PeeringActionView {
        mp_peering: spec_parse_mp_peering(pa.mp_peering),
        actions: pa.actions@.map_values(|p: (String, String)| (p.0@, p.1@)),
    }
}

/// Parse one lexed peering with its actions.
pub fn parse_peering_action(peering_action: lex::PeeringAction) -> (r: PeeringAction)
    ensures
        r@ == spec_parse_peering_action(peering_action),
{
    let lex::PeeringAction { mp_peering, actions } = peering_action;
    PeeringAction { mp_peering: parse_mp_peering(mp_peering), actions }
}

/// Parse a list of lexed peerings with their actions, in order.
pub fn parse_mp_peerings(mp_peerings: Vec<lex::PeeringAction>) -> (r: Vec<PeeringAction>)
    ensures
        r@.len() == mp_peerings@.len(),
        forall|i: int|
            0 <= i < r@.len() ==> (#[trigger] r@[i])@ == spec_parse_peering_action(
                mp_peerings@[i],
            ),
{
    let ghost orig = mp_peerings@;
    let mut rest = mp_peerings;
    let mut out: Vec<PeeringAction> = Vec::new();
    while rest.len() > 0
        invariant
            out@.len() + rest@.len() == orig.len(),
            rest@ == orig.skip(out@.len() as int),
            forall|i: int|
                0 <= i < out@.len() ==> (#[trigger] out@[i])@ == spec_parse_peering_action(
                    orig[i],
                ),
        decreases rest@.len(),
    {
        proof {
            assert(rest@[0] == orig[out@.len() as int]);
            assert(rest@.remove(0) =~= orig.skip(out@.len() as int + 1));
        }
        let pa = rest.remove(0);
        out.push(parse_peering_action(pa));
    }
    out
}

} // verus!
