//! The syntax tree of templates, and its plain view: strings as characters
//! and lists as sequences.

use vstd::prelude::*;

verus! {

/// A whole template file.
#[derive(Debug, PartialEq, Eq)]
pub struct File(pub Template);

/// A sequence of controls.
#[derive(Debug, PartialEq, Eq)]
pub struct Template {
    pub controls: Vec<Control>,
}

/// One element of a template.
#[derive(Debug, PartialEq, Eq)]
pub enum Control {
    Text(String),
    ShortCode(ShortCode),
    Command(Command),
    Substitution(Substitution),
}

/// A shortcode call: `{< name args />}` or `{< name args >}...{</ name >}`.
#[derive(Debug, PartialEq, Eq)]
pub enum ShortCode {
    Single(SingleShortCode),
    Block(BlockShortCode),
}

#[derive(Debug, PartialEq, Eq)]
pub struct SingleShortCode {
    pub name: String,
    pub parameters: Vec<Expression>,
}

#[derive(Debug, PartialEq, Eq)]
pub struct BlockShortCode {
    pub name: String,
    pub parameters: Vec<Expression>,
    pub inner: Template,
}

/// A command: `{- set ... -}`, `{- for ... -}`, `{- with ... -}`,
/// `{- if ... -}` or `{- include ... -}`.
#[derive(Debug, PartialEq, Eq)]
pub enum Command {
    SetVar(SetCommand),
    For(ForCommand),
    With(WithCommand),
    If(IfCommand),
    Include(IncludeCommand),
}

#[derive(Debug, PartialEq, Eq)]
pub struct SetCommand {
    pub name: String,
    pub value: Expression,
}

#[derive(Debug, PartialEq, Eq)]
pub struct ForCommand {
    pub item_name: String,
    pub index_name: Option<String>,
    pub list: Expression,
    pub inner: Template,
}

#[derive(Debug, PartialEq, Eq)]
pub struct WithCommand {
    pub scope: Expression,
    pub inner: Template,
}

#[derive(Debug, PartialEq, Eq)]
pub struct IfCommand {
    pub condition: Expression,
    pub inner: Template,
    pub else_inner: Option<Template>,
}

#[derive(Debug, PartialEq, Eq)]
pub struct IncludeCommand {
    pub path: String,
    pub parameters: Vec<Expression>,
}

/// `{: expression :}`
#[derive(Debug, PartialEq, Eq)]
pub struct Substitution {
    pub expr: Expression,
}

#[derive(Debug, PartialEq, Eq)]
pub struct Expression(pub Or);

/// Alternatives joined by `||`.
#[derive(Debug, PartialEq, Eq)]
pub struct Or(pub Vec<And>);

/// Comparisons joined by `&&`.
#[derive(Debug, PartialEq, Eq)]
pub struct And(pub Vec<Comparison>);

#[derive(Debug, PartialEq, Eq)]
pub struct Comparison {
    pub left: AddSub,
    pub right: Option<(ComparisonOp, AddSub)>,
}

#[derive(Debug, Clone, Copy, PartialEq, Eq, Structural)]
pub enum ComparisonOp {
    Equal,
    NotEqual,
    Greater,
    GreaterEqual,
    Less,
    LessEqual,
}

#[derive(Debug, PartialEq, Eq)]
pub struct AddSub {
    pub left: MulDiv,
    pub rights: Vec<(AddSubOp, MulDiv)>,
}

#[derive(Debug, Clone, Copy, PartialEq, Eq, Structural)]
pub enum AddSubOp {
    Add,
    Subtract,
}

#[derive(Debug, PartialEq, Eq)]
pub struct MulDiv {
    pub left: Unary,
    pub rights: Vec<(MulDivOp, Unary)>,
}

#[derive(Debug, Clone, Copy, PartialEq, Eq, Structural)]
pub enum MulDivOp {
    Multiply,
    Divide,
    Modulo,
}

#[derive(Debug, Clone, Copy, PartialEq, Eq, Structural)]
pub enum UnaryOp {
    Not,
    Positive,
    Negative,
}

/// An operand with at most one prefix operator. Repeated prefix operators,
/// as in `--x`, nest: the inner operation stands as a parenthesized
/// expression.
#[derive(Debug, PartialEq, Eq)]
pub enum Unary {
    Unary((UnaryOp, Primary)),
    Primary(Primary),
}

#[derive(Debug, PartialEq, Eq)]
pub enum Primary {
    Field(Field),
    TopLevel(TopLevel),
    Number(i32),
    String(String),
    Boolean(bool),
    Expression(Expression),
}

/// The roots of a variable access: `this`, `param` or `$name`.
#[derive(Debug, PartialEq, Eq)]
pub enum TopLevel {
    This,
    Param,
    Variable(String),
}

/// One step of a field access: `.0` or `.name`.
#[derive(Debug, PartialEq, Eq)]
pub enum GetField {
    Index(usize),
    Name(String),
}

/// A field access such as `.title`, `$item.name` or `param.0`.
#[derive(Debug, PartialEq, Eq)]
pub struct Field {
    pub top_level: Option<TopLevel>,
    pub parts: Vec<GetField>,
}

// ---------------------------------------------------------------------
// Plain views
// ---------------------------------------------------------------------

/// The view of a control; templates are sequences of these.
pub enum ControlV {
    Text(Seq<char>),
    Single(Seq<char>, Seq<ExprV>),
    Block(Seq<char>, Seq<ExprV>, Seq<ControlV>),
    Assign(Seq<char>, ExprV),
    For(Seq<char>, Option<Seq<char>>, ExprV, Seq<ControlV>),
    With(ExprV, Seq<ControlV>),
    If(ExprV, Seq<ControlV>, Option<Seq<ControlV>>),
    Include(Seq<char>, Seq<ExprV>),
    Subst(ExprV),
}

/// The view of an expression: alternatives of conjunctions of comparisons.
pub struct ExprV {
    pub ors: Seq<Seq<CompV>>,
}

pub struct CompV {
    pub left: SumV,
    pub right: Option<(ComparisonOp, SumV)>,
}

pub struct SumV {
    pub left: ProdV,
    pub rights: Seq<(AddSubOp, ProdV)>,
}

pub struct ProdV {
    pub left: UnaryV,
    pub rights: Seq<(MulDivOp, UnaryV)>,
}

pub enum UnaryV {
    Op(UnaryOp, PrimV),
    Prim(PrimV),
}

pub enum PrimV {
    Field(Option<TopV>, Seq<PartV>),
    Top(TopV),
    Num(i32),
    Str(Seq<char>),
    Bool(bool),
    Paren(ExprV),
}

pub enum TopV {
    This,
    Param,
    Var(Seq<char>),
}

pub enum PartV {
    Index(usize),
    Name(Seq<char>),
}

impl TopLevel {
    pub open spec fn view(&self) -> TopV {
        match self {
            TopLevel::This => TopV::This,
            TopLevel::Param => TopV::Param,
            TopLevel::Variable(s) => TopV::Var(s@),
        }
    }
}

impl GetField {
    pub open spec fn view(&self) -> PartV {
        match self {
            GetField::Index(i) => PartV::Index(*i),
            GetField::Name(s) => PartV::Name(s@),
        }
    }
}

/// The views of field steps.
pub open spec fn parts_view(s: Seq<GetField>) -> Seq<PartV>
    decreases s.len(),
{
    if s.len() == 0 {
        Seq::empty()
    } else {
        parts_view(s.drop_last()).push(s.last().view())
    }
}

/// The view of an optional root.
pub open spec fn top_opt_view(t: Option<TopLevel>) -> Option<TopV> {
    match t {
        Some(t) => Some(t.view()),
        None => None,
    }
}

impl Field {
    pub open spec fn view(&self) -> PrimV {
        PrimV::Field(top_opt_view(self.top_level), parts_view(self.parts@))
    }
}

impl Expression {
    pub open spec fn view(&self) -> ExprV
        decreases self,
    {
        ExprV { ors: ands_view(self.0.0@) }
    }
}

/// The views of the alternatives of an `Or`.
pub open spec fn ands_view(s: Seq<And>) -> Seq<Seq<CompV>>
    decreases s,
{
    if s.len() == 0 {
        Seq::empty()
    } else {
        ands_view(s.drop_last()).push(comps_view(s.last().0@))
    }
}

/// The views of the comparisons of an `And`.
pub open spec fn comps_view(s: Seq<Comparison>) -> Seq<CompV>
    decreases s,
{
    if s.len() == 0 {
        Seq::empty()
    } else {
        comps_view(s.drop_last()).push(s.last().view())
    }
}

impl Comparison {
    pub open spec fn view(&self) -> CompV
        decreases self,
    {
        CompV {
            left: self.left.view(),
            right: match self.right {
                Some(p) => Some((p.0, p.1.view())),
                None => None,
            },
        }
    }
}

impl AddSub {
    pub open spec fn view(&self) -> SumV
        decreases self,
    {
        SumV { left: self.left.view(), rights: sum_rights_view(self.rights@) }
    }
}

/// The views of the terms after the first of a sum.
pub open spec fn sum_rights_view(s: Seq<(AddSubOp, MulDiv)>) -> Seq<(AddSubOp, ProdV)>
    decreases s,
{
    if s.len() == 0 {
        Seq::empty()
    } else {
        sum_rights_view(s.drop_last()).push((s.last().0, s.last().1.view()))
    }
}

impl MulDiv {
    pub open spec fn view(&self) -> ProdV
        decreases self,
    {
        ProdV { left: self.left.view(), rights: prod_rights_view(self.rights@) }
    }
}

/// The views of the factors after the first of a product.
pub open spec fn prod_rights_view(s: Seq<(MulDivOp, Unary)>) -> Seq<(MulDivOp, UnaryV)>
    decreases s,
{
    if s.len() == 0 {
        Seq::empty()
    } else {
        prod_rights_view(s.drop_last()).push((s.last().0, s.last().1.view()))
    }
}

impl Unary {
    pub open spec fn view(&self) -> UnaryV
        decreases self,
    {
        match self {
            Unary::Unary(p) => UnaryV::Op(p.0, p.1.view()),
            Unary::Primary(p) => UnaryV::Prim(p.view()),
        }
    }
}

impl Primary {
    pub open spec fn view(&self) -> PrimV
        decreases self,
    {
        match self {
            Primary::Field(f) => f.view(),
            Primary::TopLevel(t) => PrimV::Top(t.view()),
            Primary::Number(n) => PrimV::Num(*n),
            Primary::String(s) => PrimV::Str(s@),
            Primary::Boolean(b) => PrimV::Bool(*b),
            Primary::Expression(e) => PrimV::Paren(e.view()),
        }
    }
}

/// The views of a list of expressions.
pub open spec fn exprs_view(s: Seq<Expression>) -> Seq<ExprV>
    decreases s,
{
    if s.len() == 0 {
        Seq::empty()
    } else {
        exprs_view(s.drop_last()).push(s.last().view())
    }
}

impl Template {
    pub open spec fn view(&self) -> Seq<ControlV>
        decreases self,
    {
        controls_view(self.controls@)
    }
}

/// The views of a list of controls.
pub open spec fn controls_view(s: Seq<Control>) -> Seq<ControlV>
    decreases s,
{
    if s.len() == 0 {
        Seq::empty()
    } else {
        controls_view(s.drop_last()).push(s.last().view())
    }
}

/// The view of an optional template.
pub open spec fn template_opt_view(t: Option<Template>) -> Option<Seq<ControlV>>
    decreases t,
{
    match t {
        Some(t) => Some(t.view()),
        None => None,
    }
}

impl Control {
    pub open spec fn view(&self) -> ControlV
        decreases self,
    {
        match self {
            Control::Text(s) => ControlV::Text(s@),
            Control::ShortCode(ShortCode::Single(sc)) => ControlV::Single(sc.name@, exprs_view(sc.parameters@)),
            Control::ShortCode(ShortCode::Block(sc)) => ControlV::Block(
                sc.name@,
                exprs_view(sc.parameters@),
                sc.inner.view(),
            ),
            Control::Command(Command::SetVar(c)) => ControlV::Assign(c.name@, c.value.view()),
            Control::Command(Command::For(c)) => ControlV::For(
                c.item_name@,
                match c.index_name {
                    Some(s) => Some(s@),
                    None => None,
                },
                c.list.view(),
                c.inner.view(),
            ),
            Control::Command(Command::With(c)) => ControlV::With(c.scope.view(), c.inner.view()),
            Control::Command(Command::If(c)) => ControlV::If(
                c.condition.view(),
                c.inner.view(),
                template_opt_view(c.else_inner),
            ),
            Control::Command(Command::Include(c)) => ControlV::Include(c.path@, exprs_view(c.parameters@)),
            Control::Substitution(s) => ControlV::Subst(s.expr.view()),
        }
    }
}

impl File {
    pub open spec fn view(&self) -> Seq<ControlV> {
        self.0.view()
    }
}


pub proof fn lemma_comps_view(s: Seq<Comparison>)
    ensures
        comps_view(s).len() == s.len(),
        forall|i: int| 0 <= i < s.len() ==> #[trigger] comps_view(s)[i] == s[i].view(),
    decreases s.len(),
{
    if s.len() > 0 {
        lemma_comps_view(s.drop_last());
    }
}

pub proof fn lemma_ands_view(s: Seq<And>)
    ensures
        ands_view(s).len() == s.len(),
        forall|i: int| 0 <= i < s.len() ==> #[trigger] ands_view(s)[i] == comps_view(s[i].0@),
    decreases s.len(),
{
    if s.len() > 0 {
        lemma_ands_view(s.drop_last());
    }
}

pub proof fn lemma_sum_rights_view(s: Seq<(AddSubOp, MulDiv)>)
    ensures
        sum_rights_view(s).len() == s.len(),
        forall|i: int| 0 <= i < s.len() ==> #[trigger] sum_rights_view(s)[i] == (s[i].0, s[i].1.view()),
    decreases s.len(),
{
    if s.len() > 0 {
        lemma_sum_rights_view(s.drop_last());
    }
}

pub proof fn lemma_prod_rights_view(s: Seq<(MulDivOp, Unary)>)
    ensures
        prod_rights_view(s).len() == s.len(),
        forall|i: int| 0 <= i < s.len() ==> #[trigger] prod_rights_view(s)[i] == (s[i].0, s[i].1.view()),
    decreases s.len(),
{
    if s.len() > 0 {
        lemma_prod_rights_view(s.drop_last());
    }
}

pub proof fn lemma_exprs_view(s: Seq<Expression>)
    ensures
        exprs_view(s).len() == s.len(),
        forall|i: int| 0 <= i < s.len() ==> #[trigger] exprs_view(s)[i] == s[i].view(),
    decreases s.len(),
{
    if s.len() > 0 {
        lemma_exprs_view(s.drop_last());
    }
}

pub proof fn lemma_controls_view(s: Seq<Control>)
    ensures
        controls_view(s).len() == s.len(),
        forall|i: int| 0 <= i < s.len() ==> #[trigger] controls_view(s)[i] == s[i].view(),
    decreases s.len(),
{
    if s.len() > 0 {
        lemma_controls_view(s.drop_last());
    }
}

} // verus!
