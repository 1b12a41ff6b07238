//! The specification values of the tree: each node with its borrowed text
//! replaced by the bytes it holds.

use crate::hir::{
    Array, Block, Bool, BStr, Char, Comment, Expr, Fields, Float, FnCall, FnDecl, Ident, Int,
    Literal, MapLit, Path, PathGlob, Program, Stmt, Symbol, Text, TopStmt, Tuple, Ty, TyDecl,
    TyIdent, TyVariant, UStr, VarAssign,
};
use vstd::prelude::*;
use vstd::string::StringSliceAdditionalSpecFns;
use vstd::utf8::encode_utf8;

verus! {

/// View of a [`Literal`].
pub enum LiteralView {
    Ident(Text),
    Bool(bool, Text),
    Int(i64, Text),
    Float(Text),
    UStr(Text),
    BStr(Text, Text),
    Char(char, Text),
    Symbol(Text),
    Array(Seq<LiteralView>),
    Tuple(Seq<LiteralView>),
    MapLit(Seq<(Text, ExprView)>),
}

/// View of an [`Expr`].
pub enum ExprView {
    If(Box<ExprView>, Seq<StmtView>, Option<Seq<StmtView>>),
    Unless(Box<ExprView>, Seq<StmtView>, Option<Seq<StmtView>>),
    Loop(Seq<StmtView>),
    While(Box<ExprView>, Seq<StmtView>),
    Until(Box<ExprView>, Seq<StmtView>),
    For(Box<ExprView>, Box<ExprView>, Seq<StmtView>),
    Continue(Text),
    Break(Option<Box<ExprView>>, Text),
    FnCall(FnCallView),
    Ident(Text),
    Dot(Box<ExprView>, Box<ExprView>),
    Literal(LiteralView),
}

/// View of a [`FnCall`].
pub struct FnCallView {
    pub name: Text,
    pub args: Seq<ExprView>,
}

/// View of a [`Stmt`].
pub enum StmtView {
    Comment(CommentView),
    VarAssign(VarAssignView),
    Expr(ExprView),
}

/// View of a [`VarAssign`].
pub struct VarAssignView {
    pub name: Text,
    pub ty: Option<Text>,
    pub rhs: ExprView,
}

/// View of a [`Comment`].
pub enum CommentView {
    SingleLine(Text),
    MultiLine(Seq<Text>),
}

/// View of a [`TyIdent`].
pub struct TyIdentView {
    pub ident: Text,
    pub ty: Text,
}

/// View of [`Fields`].
pub enum FieldsView {
    Named(Seq<TyIdentView>),
    Anonymous(Seq<Text>),
}

/// View of a [`TyVariant`].
pub struct TyVariantView {
    pub name: Option<Text>,
    pub fields: FieldsView,
}

/// View of a [`FnDecl`].
pub struct FnDeclView {
    pub name: Text,
    pub args: Seq<TyIdentView>,
    pub ret_ty: Option<Text>,
    pub body: Seq<StmtView>,
}

/// View of a [`TopStmt`].
pub enum TopStmtView {
    Comment(CommentView),
    Use(Text),
    FnDecl(FnDeclView),
    TyDecl(Seq<TyVariantView>),
}

impl<'a> View for Ident<'a> {
    type V = Text;

    open spec fn view(&self) -> Text {
        self.0.spec_bytes()
    }
}

impl<'a> View for Ty<'a> {
    type V = Text;

    open spec fn view(&self) -> Text {
        self.0.spec_bytes()
    }
}

impl<'a> View for Symbol<'a> {
    type V = Text;

    open spec fn view(&self) -> Text {
        self.0.spec_bytes()
    }
}

impl<'a> View for UStr<'a> {
    type V = Text;

    open spec fn view(&self) -> Text {
        self.0.spec_bytes()
    }
}

impl<'a> View for Float<'a> {
    type V = Text;

    open spec fn view(&self) -> Text {
        self.0.spec_bytes()
    }
}

impl<'a> View for PathGlob<'a> {
    type V = Text;

    open spec fn view(&self) -> Text {
        self.0.spec_bytes()
    }
}

impl<'a> View for Path<'a> {
    type V = Text;

    open spec fn view(&self) -> Text {
        encode_utf8(self.0@)
    }
}

impl<'a> View for Bool<'a> {
    type V = (bool, Text);

    open spec fn view(&self) -> (bool, Text) {
        (self.0, self.1.spec_bytes())
    }
}

impl<'a> View for Int<'a> {
    type V = (i64, Text);

    open spec fn view(&self) -> (i64, Text) {
        (self.0, self.1.spec_bytes())
    }
}

impl<'a> View for Char<'a> {
    type V = (char, Text);

    open spec fn view(&self) -> (char, Text) {
        (self.0, self.1.spec_bytes())
    }
}

impl<'a> View for BStr<'a> {
    type V = (Text, Text);

    open spec fn view(&self) -> (Text, Text) {
        (self.0@, self.1.spec_bytes())
    }
}

impl<'a> View for TyIdent<'a> {
    type V = TyIdentView;

    open spec fn view(&self) -> TyIdentView {
        TyIdentView { ident: self.ident@, ty: self.ty@ }
    }
}

/// The view of an optional piece of text.
pub open spec fn ty_view(ty: Option<Ty>) -> Option<Text> {
    match ty {
        Some(t) => Some(t@),
        None => None,
    }
}

/// The bytes of each of the lines.
pub open spec fn lines_view(lines: Seq<&str>) -> Seq<Text> {
    Seq::new(lines.len(), |k: int| lines[k].spec_bytes())
}

impl<'a> View for Comment<'a> {
    type V = CommentView;

    open spec fn view(&self) -> CommentView {
        match self {
            Comment::SingleLine(line) => CommentView::SingleLine(line.spec_bytes()),
            Comment::MultiLine(lines) => CommentView::MultiLine(lines_view(lines@)),
        }
    }
}

/// The views of a run of identifiers with their types.
pub open spec fn ty_idents_view(items: Seq<TyIdent>) -> Seq<TyIdentView> {
    Seq::new(items.len(), |k: int| items[k]@)
}

/// The views of a run of types.
pub open spec fn tys_view(items: Seq<Ty>) -> Seq<Text> {
    Seq::new(items.len(), |k: int| items[k]@)
}

/// The views of a run of variants.
pub open spec fn variants_view(items: Seq<TyVariant>) -> Seq<TyVariantView> {
    Seq::new(items.len(), |k: int| items[k]@)
}

/// The views of a run of top-level statements.
pub open spec fn tops_view(items: Seq<TopStmt>) -> Seq<TopStmtView> {
    Seq::new(items.len(), |k: int| items[k]@)
}

impl<'a> View for Fields<'a> {
    type V = FieldsView;

    open spec fn view(&self) -> FieldsView {
        match self {
            Fields::Named(fields) => FieldsView::Named(ty_idents_view(fields@)),
            Fields::Anonymous(types) => FieldsView::Anonymous(tys_view(types@)),
        }
    }
}

impl<'a> View for TyVariant<'a> {
    type V = TyVariantView;

    open spec fn view(&self) -> TyVariantView {
        TyVariantView {
            name: match self.name {
                Some(name) => Some(name@),
                None => None,
            },
            fields: self.fields@,
        }
    }
}

impl<'a> View for TyDecl<'a> {
    type V = Seq<TyVariantView>;

    open spec fn view(&self) -> Seq<TyVariantView> {
        variants_view(self.0@)
    }
}

impl<'a> Literal<'a> {
    /// The literal as a specification value.
    pub open spec fn model(&self) -> LiteralView
        decreases self,
    {
        match self {
            Literal::Ident(x) => LiteralView::Ident(x@),
            Literal::Bool(x) => LiteralView::Bool(x.0, x.1.spec_bytes()),
            Literal::Int(x) => LiteralView::Int(x.0, x.1.spec_bytes()),
            Literal::Float(x) => LiteralView::Float(x@),
            Literal::UStr(x) => LiteralView::UStr(x@),
            Literal::BStr(x) => LiteralView::BStr(x.0@, x.1.spec_bytes()),
            Literal::Char(x) => LiteralView::Char(x.0, x.1.spec_bytes()),
            Literal::Symbol(x) => LiteralView::Symbol(x@),
            Literal::Array(x) => LiteralView::Array(x.model()),
            Literal::Tuple(x) => LiteralView::Tuple(x.model()),
            Literal::MapLit(x) => LiteralView::MapLit(x.model()),
        }
    }
}

impl<'a> Array<'a> {
    /// The elements as specification values.
    pub open spec fn model(&self) -> Seq<LiteralView>
        decreases self,
    {
        Seq::new(
            self.0@.len(),
            |k: int|
                if 0 <= k < self.0@.len() {
                    self.0@[k].model()
                } else {
                    arbitrary()
                },
        )
    }
}

impl<'a> Tuple<'a> {
    /// The elements as specification values.
    pub open spec fn model(&self) -> Seq<LiteralView>
        decreases self,
    {
        Seq::new(
            self.0@.len(),
            |k: int|
                if 0 <= k < self.0@.len() {
                    self.0@[k].model()
                } else {
                    arbitrary()
                },
        )
    }
}

impl<'a> MapLit<'a> {
    /// The entries as specification values.
    pub open spec fn model(&self) -> Seq<(Text, ExprView)>
        decreases self,
    {
        Seq::new(
            self.0@.len(),
            |k: int|
                if 0 <= k < self.0@.len() {
                    (self.0@[k].0@, self.0@[k].1.model())
                } else {
                    arbitrary()
                },
        )
    }
}

impl<'a> Expr<'a> {
    /// The expression as a specification value.
    pub open spec fn model(&self) -> ExprView
        decreases self,
    {
        match self {
            Expr::If(c, b, e) => ExprView::If(
                Box::new(c.model()),
                b.model(),
                match e {
                    Some(e) => Some(e.model()),
                    None => None,
                },
            ),
            Expr::Unless(c, b, e) => ExprView::Unless(
                Box::new(c.model()),
                b.model(),
                match e {
                    Some(e) => Some(e.model()),
                    None => None,
                },
            ),
            Expr::Loop(b) => ExprView::Loop(b.model()),
            Expr::While(c, b) => ExprView::While(Box::new(c.model()), b.model()),
            Expr::Until(c, b) => ExprView::Until(Box::new(c.model()), b.model()),
            Expr::For(x, c, b) => ExprView::For(
                Box::new(x.model()),
                Box::new(c.model()),
                b.model(),
            ),
            Expr::Continue(label) => ExprView::Continue(label.spec_bytes()),
            Expr::Break(value, label) => ExprView::Break(
                match value {
                    Some(v) => Some(Box::new(v.model())),
                    None => None,
                },
                label.spec_bytes(),
            ),
            Expr::FnCall(call) => ExprView::FnCall(call.model()),
            Expr::Ident(x) => ExprView::Ident(x@),
            Expr::Dot(a, b) => ExprView::Dot(Box::new(a.model()), Box::new(b.model())),
            Expr::Literal(x) => ExprView::Literal(x.model()),
        }
    }
}

impl<'a> FnCall<'a> {
    /// The call as a specification value.
    pub open spec fn model(&self) -> FnCallView
        decreases self,
    {
        FnCallView {
            name: self.name@,
            args: Seq::new(
                self.args@.len(),
                |k: int|
                    if 0 <= k < self.args@.len() {
                        self.args@[k].model()
                    } else {
                        arbitrary()
                    },
            ),
        }
    }
}

impl<'a> Block<'a> {
    /// The statements as specification values.
    pub open spec fn model(&self) -> Seq<StmtView>
        decreases self,
    {
        Seq::new(
            self.0@.len(),
            |k: int|
                if 0 <= k < self.0@.len() {
                    self.0@[k].model()
                } else {
                    arbitrary()
                },
        )
    }
}

impl<'a> Stmt<'a> {
    /// The statement as a specification value.
    pub open spec fn model(&self) -> StmtView
        decreases self,
    {
        match self {
            Stmt::Comment(c) => StmtView::Comment(c@),
            Stmt::VarAssign(a) => StmtView::VarAssign(a.model()),
            Stmt::Expr(e) => StmtView::Expr(e.model()),
        }
    }
}

impl<'a> VarAssign<'a> {
    /// The assignment as a specification value.
    pub open spec fn model(&self) -> VarAssignView
        decreases self,
    {
        VarAssignView { name: self.name@, ty: ty_view(self.ty), rhs: self.rhs.model() }
    }
}

/// The views of a run of literals.
pub open spec fn literals_view(items: Seq<Literal>) -> Seq<LiteralView> {
    Seq::new(items.len(), |k: int| items[k].model())
}

/// The views of a run of expressions.
pub open spec fn exprs_view(items: Seq<Box<Expr>>) -> Seq<ExprView> {
    Seq::new(items.len(), |k: int| items[k].model())
}

/// The views of a run of map entries.
pub open spec fn entries_view(items: Seq<(Symbol, Box<Expr>)>) -> Seq<(Text, ExprView)> {
    Seq::new(items.len(), |k: int| (items[k].0@, items[k].1.model()))
}

/// The views of a run of statements.
pub open spec fn stmts_view(items: Seq<Stmt>) -> Seq<StmtView> {
    Seq::new(items.len(), |k: int| items[k].model())
}

/// An array and a tuple are viewed as the views of their elements.
pub proof fn lemma_literals_view(literals: Vec<Literal>)
    ensures
        Array(literals)@ == literals_view(literals@),
        Tuple(literals)@ == literals_view(literals@),
{
    assert(Array(literals).model() =~= literals_view(literals@));
    assert(Tuple(literals).model() =~= literals_view(literals@));
}

/// A map is viewed as the views of its entries.
pub proof fn lemma_entries_view(entries: Vec<(Symbol, Box<Expr>)>)
    ensures
        MapLit(entries)@ == entries_view(entries@),
{
    assert(MapLit(entries).model() =~= entries_view(entries@));
}

/// A block is viewed as the views of its statements.
pub proof fn lemma_stmts_view(stmts: Vec<Stmt>)
    ensures
        Block(stmts)@ == stmts_view(stmts@),
{
    assert(Block(stmts).model() =~= stmts_view(stmts@));
}

/// A call is viewed as its name and the views of its arguments.
pub proof fn lemma_call_view(name: Ident, args: Vec<Box<Expr>>)
    ensures
        (FnCall { name, args })@ == (FnCallView { name: name@, args: exprs_view(args@) }),
{
    assert((FnCall { name, args }).model().args =~= exprs_view(args@));
}

impl<'a> View for Literal<'a> {
    type V = LiteralView;

    open spec fn view(&self) -> LiteralView {
        self.model()
    }
}

impl<'a> View for Array<'a> {
    type V = Seq<LiteralView>;

    open spec fn view(&self) -> Seq<LiteralView> {
        self.model()
    }
}

impl<'a> View for Tuple<'a> {
    type V = Seq<LiteralView>;

    open spec fn view(&self) -> Seq<LiteralView> {
        self.model()
    }
}

impl<'a> View for MapLit<'a> {
    type V = Seq<(Text, ExprView)>;

    open spec fn view(&self) -> Seq<(Text, ExprView)> {
        self.model()
    }
}

impl<'a> View for Expr<'a> {
    type V = ExprView;

    open spec fn view(&self) -> ExprView {
        self.model()
    }
}

impl<'a> View for FnCall<'a> {
    type V = FnCallView;

    open spec fn view(&self) -> FnCallView {
        self.model()
    }
}

impl<'a> View for Block<'a> {
    type V = Seq<StmtView>;

    open spec fn view(&self) -> Seq<StmtView> {
        self.model()
    }
}

impl<'a> View for Stmt<'a> {
    type V = StmtView;

    open spec fn view(&self) -> StmtView {
        self.model()
    }
}

impl<'a> View for VarAssign<'a> {
    type V = VarAssignView;

    open spec fn view(&self) -> VarAssignView {
        self.model()
    }
}

impl<'a> View for FnDecl<'a> {
    type V = FnDeclView;

    open spec fn view(&self) -> FnDeclView {
        FnDeclView {
            name: self.name@,
            args: ty_idents_view(self.args@),
            ret_ty: ty_view(self.ret_ty),
            body: self.body@,
        }
    }
}

impl<'a> View for TopStmt<'a> {
    type V = TopStmtView;

    open spec fn view(&self) -> TopStmtView {
        match self {
            TopStmt::Comment(c) => TopStmtView::Comment(c@),
            TopStmt::Use(glob) => TopStmtView::Use(glob@),
            TopStmt::FnDecl(decl) => TopStmtView::FnDecl(decl@),
            TopStmt::TyDecl(decl) => TopStmtView::TyDecl(decl@),
        }
    }
}

impl<'a> View for Program<'a> {
    type V = Seq<TopStmtView>;

    open spec fn view(&self) -> Seq<TopStmtView> {
        tops_view(self.0@)
    }
}

} // verus!
