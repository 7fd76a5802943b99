//! The abstract syntax tree produced by the parser.
use vstd::prelude::*;

use crate::object::names_view;
use crate::token::{Token, TokenView};

verus! {

/// A node of the syntax tree; each composite node owns its children.
#[derive(Debug)]
#[allow(inconsistent_fields)]
pub enum AstNode {
    Number(i64),
    Boolean(bool),
    String(String),
    Identifier(String),
    Array(Vec<AstNode>),
    ArrayAccess { array: Box<AstNode>, index: Box<AstNode> },
    LetStatement { name: String, value: Box<AstNode> },
    IfStatement {
        condition: Box<AstNode>,
        then_branch: Box<AstNode>,
        else_branch: Option<Box<AstNode>>,
    },
    WhileStatement { condition: Box<AstNode>, body: Box<AstNode> },
    ForStatement {
        init: Box<AstNode>,
        condition: Box<AstNode>,
        increment: Box<AstNode>,
        body: Box<AstNode>,
    },
    FunctionDefinition { name: String, parameters: Vec<String>, body: Box<AstNode> },
    FunctionCall { name: String, arguments: Vec<AstNode> },
    ReturnStatement { value: Option<Box<AstNode>> },
    BreakStatement,
    ContinueStatement,
    InfixExpression { op: Token, left: Box<AstNode>, right: Box<AstNode> },
    PrefixExpression { op: Token, right: Box<AstNode> },
    BlockStatement(Vec<AstNode>),
    Program(Vec<AstNode>),
}

/// The mathematical content of a syntax tree.
pub enum AstView {
    Number(int),
    Boolean(bool),
    Str(Seq<char>),
    Identifier(Seq<char>),
    Array(Seq<AstView>),
    ArrayAccess(Box<AstView>, Box<AstView>),
    Let(Seq<char>, Box<AstView>),
    If(Box<AstView>, Box<AstView>, Option<Box<AstView>>),
    While(Box<AstView>, Box<AstView>),
    For(Box<AstView>, Box<AstView>, Box<AstView>, Box<AstView>),
    FunctionDefinition(Seq<char>, Seq<Seq<char>>, Box<AstView>),
    Call(Seq<char>, Seq<AstView>),
    Return(Option<Box<AstView>>),
    Break,
    Continue,
    Infix(TokenView, Box<AstView>, Box<AstView>),
    Prefix(TokenView, Box<AstView>),
    Block(Seq<AstView>),
    Program(Seq<AstView>),
}

/// The views of a sequence of nodes.
pub open spec fn node_views(s: Seq<AstNode>) -> Seq<AstView> {
    Seq::new(s.len(), |i: int| s[i].view())
}

impl AstNode {
    pub open spec fn view(&self) -> AstView
        decreases self,
    {
        match self {
            AstNode::Number(n) => AstView::Number(*n as int),
            AstNode::Boolean(b) => AstView::Boolean(*b),
            AstNode::String(s) => AstView::Str(s@),
            AstNode::Identifier(s) => AstView::Identifier(s@),
            AstNode::Array(v) => AstView::Array(
                Seq::new(
                    v@.len(),
                    |i: int|
                        if 0 <= i < v@.len() {
                            v@[i].view()
                        } else {
                            AstView::Break
                        },
                ),
            ),
            AstNode::ArrayAccess { array, index } => AstView::ArrayAccess(
                Box::new((**array).view()),
                Box::new((**index).view()),
            ),
            AstNode::LetStatement { name, value } => AstView::Let(name@, Box::new((**value).view())),
            AstNode::IfStatement { condition, then_branch, else_branch } => AstView::If(
                Box::new((**condition).view()),
                Box::new((**then_branch).view()),
                match else_branch {
                    Some(e) => Some(Box::new((**e).view())),
                    None => None,
                },
            ),
            AstNode::WhileStatement { condition, body } => AstView::While(
                Box::new((**condition).view()),
                Box::new((**body).view()),
            ),
            AstNode::ForStatement { init, condition, increment, body } => AstView::For(
                Box::new((**init).view()),
                Box::new((**condition).view()),
                Box::new((**increment).view()),
                Box::new((**body).view()),
            ),
            AstNode::FunctionDefinition { name, parameters, body } => AstView::FunctionDefinition(
                name@,
                names_view(parameters@),
                Box::new((**body).view()),
            ),
            AstNode::FunctionCall { name, arguments } => AstView::Call(
                name@,
                Seq::new(
                    arguments@.len(),
                    |i: int|
                        if 0 <= i < arguments@.len() {
                            arguments@[i].view()
                        } else {
                            AstView::Break
                        },
                ),
            ),
            AstNode::ReturnStatement { value } => AstView::Return(
                match value {
                    Some(e) => Some(Box::new((**e).view())),
                    None => None,
                },
            ),
            AstNode::BreakStatement => AstView::Break,
            AstNode::ContinueStatement => AstView::Continue,
            AstNode::InfixExpression { op, left, right } => AstView::Infix(
                op@,
                Box::new((**left).view()),
                Box::new((**right).view()),
            ),
            AstNode::PrefixExpression { op, right } => AstView::Prefix(op@, Box::new((**right).view())),
            AstNode::BlockStatement(v) => AstView::Block(
                Seq::new(
                    v@.len(),
                    |i: int|
                        if 0 <= i < v@.len() {
                            v@[i].view()
                        } else {
                            AstView::Break
                        },
                ),
            ),
            AstNode::Program(v) => AstView::Program(
                Seq::new(
                    v@.len(),
                    |i: int|
                        if 0 <= i < v@.len() {
                            v@[i].view()
                        } else {
                            AstView::Break
                        },
                ),
            ),
        }
    }
}

impl AstNode {
    fn clone_children(&self, v: &Vec<AstNode>) -> (r: Vec<AstNode>)
        requires
            forall|i: int| 0 <= i < v@.len() ==> decreases_to!(*self => v@[i]),
        ensures
            r@.len() == v@.len(),
            forall|i: int| 0 <= i < v@.len() ==> #[trigger] r@[i].view() == v@[i].view(),
        decreases self, 0nat,
    {
        let mut w: Vec<AstNode> = Vec::new();
        let mut i: usize = 0;
        while i < v.len()
            invariant
                i <= v@.len(),
                w@.len() == i,
                forall|k: int| 0 <= k < i ==> #[trigger] w@[k].view() == v@[k].view(),
                forall|k: int| 0 <= k < v@.len() ==> decreases_to!(*self => v@[k]),
            decreases v@.len() - i,
        {
            assert(decreases_to!(*self => v@[i as int]));
            w.push(v[i].deep_clone());
            i = i + 1;
        }
        w
    }

    fn clone_box(&self, b: &Box<AstNode>) -> (r: Box<AstNode>)
        requires
            decreases_to!(*self => **b),
        ensures
            (*r).view() == (**b).view(),
        decreases self, 0nat,
    {
        Box::new((**b).deep_clone())
    }

    /// A copy of the whole tree.
    pub fn deep_clone(&self) -> (r: AstNode)
        ensures
            r.view() == self.view(),
        decreases self, 1nat,
    {
        proof {
            broadcast use vstd::std_specs::vec::group_vec_axioms;
        }
        match self {
            AstNode::Number(n) => AstNode::Number(*n),
            AstNode::Boolean(b) => AstNode::Boolean(*b),
            AstNode::String(s) => AstNode::String(s.clone()),
            AstNode::Identifier(s) => AstNode::Identifier(s.clone()),
            AstNode::Array(v) => {
                assert(forall|i: int| 0 <= i < v@.len() ==> decreases_to!(*v => #[trigger] v@[i]));
                let c = self.clone_children(v);
                let r = AstNode::Array(c);
                assert(r.view() == self.view()) by {
                    assert forall|k: int| 0 <= k < c@.len() implies r.view()->Array_0[k] == self.view()->Array_0[k] by {
                        assert(r.view()->Array_0[k] == c@[k].view());
                        assert(self.view()->Array_0[k] == v@[k].view());
                    }
                    assert(r.view()->Array_0 =~= self.view()->Array_0);
                }
                r
            },
            AstNode::ArrayAccess { array, index } => AstNode::ArrayAccess {
                array: self.clone_box(array),
                index: self.clone_box(index),
            },
            AstNode::LetStatement { name, value } => AstNode::LetStatement {
                name: name.clone(),
                value: self.clone_box(value),
            },
            AstNode::IfStatement { condition, then_branch, else_branch } => {
                let e = match else_branch {
                    Some(b) => Some(self.clone_box(b)),
                    None => None,
                };
                AstNode::IfStatement {
                    condition: self.clone_box(condition),
                    then_branch: self.clone_box(then_branch),
                    else_branch: e,
                }
            },
            AstNode::WhileStatement { condition, body } => AstNode::WhileStatement {
                condition: self.clone_box(condition),
                body: self.clone_box(body),
            },
            AstNode::ForStatement { init, condition, increment, body } => AstNode::ForStatement {
                init: self.clone_box(init),
                condition: self.clone_box(condition),
                increment: self.clone_box(increment),
                body: self.clone_box(body),
            },
            AstNode::FunctionDefinition { name, parameters, body } => AstNode::FunctionDefinition {
                name: name.clone(),
                parameters: copy_strings(parameters),
                body: self.clone_box(body),
            },
            AstNode::FunctionCall { name, arguments } => {
                assert(forall|i: int|
                    0 <= i < arguments@.len() ==> decreases_to!(*arguments => #[trigger] arguments@[i]));
                let c = self.clone_children(arguments);
                let r = AstNode::FunctionCall { name: name.clone(), arguments: c };
                assert(r.view() == self.view()) by {
                    assert forall|k: int| 0 <= k < c@.len() implies r.view()->Call_1[k] == self.view()->Call_1[k] by {
                        assert(r.view()->Call_1[k] == c@[k].view());
                        assert(self.view()->Call_1[k] == arguments@[k].view());
                    }
                    assert(r.view()->Call_1 =~= self.view()->Call_1);
                }
                r
            },
            AstNode::ReturnStatement { value } => AstNode::ReturnStatement {
                value: match value {
                    Some(b) => Some(self.clone_box(b)),
                    None => None,
                },
            },
            AstNode::BreakStatement => AstNode::BreakStatement,
            AstNode::ContinueStatement => AstNode::ContinueStatement,
            AstNode::InfixExpression { op, left, right } => AstNode::InfixExpression {
                op: op.clone(),
                left: self.clone_box(left),
                right: self.clone_box(right),
            },
            AstNode::PrefixExpression { op, right } => AstNode::PrefixExpression {
                op: op.clone(),
                right: self.clone_box(right),
            },
            AstNode::BlockStatement(v) => {
                assert(forall|i: int| 0 <= i < v@.len() ==> decreases_to!(*v => #[trigger] v@[i]));
                let c = self.clone_children(v);
                let r = AstNode::BlockStatement(c);
                assert(r.view() == self.view()) by {
                    assert forall|k: int| 0 <= k < c@.len() implies r.view()->Block_0[k] == self.view()->Block_0[k] by {
                        assert(r.view()->Block_0[k] == c@[k].view());
                        assert(self.view()->Block_0[k] == v@[k].view());
                    }
                    assert(r.view()->Block_0 =~= self.view()->Block_0);
                }
                r
            },
            AstNode::Program(v) => {
                assert(forall|i: int| 0 <= i < v@.len() ==> decreases_to!(*v => #[trigger] v@[i]));
                let c = self.clone_children(v);
                let r = AstNode::Program(c);
                assert(r.view() == self.view()) by {
                    assert forall|k: int| 0 <= k < c@.len() implies r.view()->Program_0[k] == self.view()->Program_0[k] by {
                        assert(r.view()->Program_0[k] == c@[k].view());
                        assert(self.view()->Program_0[k] == v@[k].view());
                    }
                    assert(r.view()->Program_0 =~= self.view()->Program_0);
                }
                r
            },
        }
    }
}

/// A copy of each string.
pub fn copy_strings(v: &Vec<String>) -> (r: Vec<String>)
    ensures
        r@ == v@,
{
    let mut w: Vec<String> = Vec::new();
    let mut i: usize = 0;
    while i < v.len()
        invariant
            i <= v@.len(),
            w@ == v@.subrange(0, i as int),
        decreases v@.len() - i,
    {
        w.push(v[i].clone());
        i = i + 1;
        assert(w@ =~= v@.subrange(0, i as int));
    }
    assert(v@.subrange(0, i as int) =~= v@);
    w
}

} // verus!
