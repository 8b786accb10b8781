use vstd::prelude::*;

verus! {

/// A node of the syntax tree: statements and expressions. Every composite node owns
/// its children.
#[derive(Debug, PartialEq)]
pub enum ASTNode {
    Program(Vec<Box<ASTNode>>),
    VarDeclaration { name: String, type_hint: Option<String>, value: Box<ASTNode> },
    Assignment { name: String, value: Box<ASTNode> },
    IfStatement {
        condition: Box<ASTNode>,
        then_block: Vec<Box<ASTNode>>,
        else_block: Option<Vec<Box<ASTNode>>>,
    },
    WhileLoop { condition: Box<ASTNode>, body: Vec<Box<ASTNode>> },
    ForEachLoop { variable: String, iterable: Box<ASTNode>, body: Vec<Box<ASTNode>> },
    FunctionDeclaration { name: String, parameters: Vec<String>, body: Vec<Box<ASTNode>> },
    Return(Box<ASTNode>),
    Print(Box<ASTNode>),
    Break,
    Continue,
    Import { filename: String },
    BinaryOp { left: Box<ASTNode>, operator: String, right: Box<ASTNode> },
    UnaryOp { operator: String, operand: Box<ASTNode> },
    FunctionCall { name: String, arguments: Vec<Box<ASTNode>> },
    ListLiteral(Vec<Box<ASTNode>>),
    DictionaryLiteral(Vec<(String, Box<ASTNode>)>),
    IndexAccess { object: Box<ASTNode>, index: Box<ASTNode> },
    IndexAssignment { object: Box<ASTNode>, index: Box<ASTNode>, value: Box<ASTNode> },
    Identifier(String),
    Number(String),
    String(String),
    Boolean(bool),
}

/// A syntax tree as a mathematical value: names and texts as character sequences,
/// child lists as sequences.
pub ghost enum AstView {
    Program(Seq<AstView>),
    VarDeclaration { name: Seq<char>, type_hint: Option<Seq<char>>, value: Box<AstView> },
    Assignment { name: Seq<char>, value: Box<AstView> },
    IfStatement {
        condition: Box<AstView>,
        then_block: Seq<AstView>,
        else_block: Option<Seq<AstView>>,
    },
    WhileLoop { condition: Box<AstView>, body: Seq<AstView> },
    ForEachLoop { variable: Seq<char>, iterable: Box<AstView>, body: Seq<AstView> },
    FunctionDeclaration { name: Seq<char>, parameters: Seq<Seq<char>>, body: Seq<AstView> },
    Return(Box<AstView>),
    Print(Box<AstView>),
    Break,
    Continue,
    Import { filename: Seq<char> },
    BinaryOp { left: Box<AstView>, operator: Seq<char>, right: Box<AstView> },
    UnaryOp { operator: Seq<char>, operand: Box<AstView> },
    FunctionCall { name: Seq<char>, arguments: Seq<AstView> },
    ListLiteral(Seq<AstView>),
    DictionaryLiteral(Seq<(Seq<char>, AstView)>),
    IndexAccess { object: Box<AstView>, index: Box<AstView> },
    IndexAssignment { object: Box<AstView>, index: Box<AstView>, value: Box<AstView> },
    Identifier(Seq<char>),
    Number(Seq<char>),
    String(Seq<char>),
    Boolean(bool),
}

/// The views of a list of nodes.
pub open spec fn nodes_view(xs: Seq<Box<ASTNode>>) -> Seq<AstView>
    decreases xs,
{
    Seq::new(
        xs.len(),
        |i: int|
            if 0 <= i < xs.len() {
                node_view(*xs[i])
            } else {
                AstView::Break
            },
    )
}

/// The views of the entries of a dictionary literal.
pub open spec fn pairs_view(ps: Seq<(String, Box<ASTNode>)>) -> Seq<(Seq<char>, AstView)>
    decreases ps,
{
    Seq::new(
        ps.len(),
        |i: int|
            if 0 <= i < ps.len() {
                (ps[i].0@, node_view(*ps[i].1))
            } else {
                (Seq::empty(), AstView::Break)
            },
    )
}

/// The views of a list of names.
pub open spec fn names_view(ns: Seq<String>) -> Seq<Seq<char>> {
    ns.map_values(|n: String| n@)
}

pub proof fn lemma_nodes_view_push(xs: Seq<Box<ASTNode>>, b: Box<ASTNode>)
    ensures
        nodes_view(xs.push(b)) == nodes_view(xs).push(node_view(*b)),
{
    assert(nodes_view(xs.push(b)) =~= nodes_view(xs).push(node_view(*b)));
}

pub proof fn lemma_pairs_view_push(ps: Seq<(String, Box<ASTNode>)>, e: (String, Box<ASTNode>))
    ensures
        pairs_view(ps.push(e)) == pairs_view(ps).push((e.0@, node_view(*e.1))),
{
    assert(pairs_view(ps.push(e)) =~= pairs_view(ps).push((e.0@, node_view(*e.1))));
}

pub proof fn lemma_names_view_push(ns: Seq<String>, n: String)
    ensures
        names_view(ns.push(n)) == names_view(ns).push(n@),
{
    assert(names_view(ns.push(n)) =~= names_view(ns).push(n@));
}

/// What a node is, as a mathematical value.
pub open spec fn node_view(n: ASTNode) -> AstView
    decreases n,
{
    match n {
        ASTNode::Program(xs) => AstView::Program(nodes_view(xs@)),
        ASTNode::VarDeclaration { name, type_hint, value } => AstView::VarDeclaration {
            name: name@,
            type_hint: match type_hint {
                Some(t) => Some(t@),
                None => None,
            },
            value: Box::new(node_view(*value)),
        },
        ASTNode::Assignment { name, value } => AstView::Assignment {
            name: name@,
            value: Box::new(node_view(*value)),
        },
        ASTNode::IfStatement { condition, then_block, else_block } => AstView::IfStatement {
            condition: Box::new(node_view(*condition)),
            then_block: nodes_view(then_block@),
            else_block: match else_block {
                Some(e) => Some(nodes_view(e@)),
                None => None,
            },
        },
        ASTNode::WhileLoop { condition, body } => AstView::WhileLoop {
            condition: Box::new(node_view(*condition)),
            body: nodes_view(body@),
        },
        ASTNode::ForEachLoop { variable, iterable, body } => AstView::ForEachLoop {
            variable: variable@,
            iterable: Box::new(node_view(*iterable)),
            body: nodes_view(body@),
        },
        ASTNode::FunctionDeclaration { name, parameters, body } => AstView::FunctionDeclaration {
            name: name@,
            parameters: names_view(parameters@),
            body: nodes_view(body@),
        },
        ASTNode::Return(e) => AstView::Return(Box::new(node_view(*e))),
        ASTNode::Print(e) => AstView::Print(Box::new(node_view(*e))),
        ASTNode::Break => AstView::Break,
        ASTNode::Continue => AstView::Continue,
        ASTNode::Import { filename } => AstView::Import { filename: filename@ },
        ASTNode::BinaryOp { left, operator, right } => AstView::BinaryOp {
            left: Box::new(node_view(*left)),
            operator: operator@,
            right: Box::new(node_view(*right)),
        },
        ASTNode::UnaryOp { operator, operand } => AstView::UnaryOp {
            operator: operator@,
            operand: Box::new(node_view(*operand)),
        },
        ASTNode::FunctionCall { name, arguments } => AstView::FunctionCall {
            name: name@,
            arguments: nodes_view(arguments@),
        },
        ASTNode::ListLiteral(xs) => AstView::ListLiteral(nodes_view(xs@)),
        ASTNode::DictionaryLiteral(ps) => AstView::DictionaryLiteral(pairs_view(ps@)),
        ASTNode::IndexAccess { object, index } => AstView::IndexAccess {
            object: Box::new(node_view(*object)),
            index: Box::new(node_view(*index)),
        },
        ASTNode::IndexAssignment { object, index, value } => AstView::IndexAssignment {
            object: Box::new(node_view(*object)),
            index: Box::new(node_view(*index)),
            value: Box::new(node_view(*value)),
        },
        ASTNode::Identifier(s) => AstView::Identifier(s@),
        ASTNode::Number(s) => AstView::Number(s@),
        ASTNode::String(s) => AstView::String(s@),
        ASTNode::Boolean(b) => AstView::Boolean(b),
    }
}

impl View for ASTNode {
    type V = AstView;

    open spec fn view(&self) -> AstView {
        node_view(*self)
    }
}

impl ASTNode {
    pub fn new_program(statements: Vec<Box<ASTNode>>) -> (r: ASTNode)
        ensures
            r == ASTNode::Program(statements),
    {
        ASTNode::Program(statements)
    }

    pub fn new_var_declaration(name: String, type_hint: Option<String>, value: Box<ASTNode>) -> (r: ASTNode)
        ensures
            r == (ASTNode::VarDeclaration { name, type_hint, value }),
    {
        ASTNode::VarDeclaration { name, type_hint, value }
    }

    pub fn new_assignment(name: String, value: Box<ASTNode>) -> (r: ASTNode)
        ensures
            r == (ASTNode::Assignment { name, value }),
    {
        ASTNode::Assignment { name, value }
    }

    pub fn new_if_statement(
        condition: Box<ASTNode>,
        then_block: Vec<Box<ASTNode>>,
        else_block: Option<Vec<Box<ASTNode>>>,
    ) -> (r: ASTNode)
        ensures
            r == (ASTNode::IfStatement { condition, then_block, else_block }),
    {
        ASTNode::IfStatement { condition, then_block, else_block }
    }

    pub fn new_while_loop(condition: Box<ASTNode>, body: Vec<Box<ASTNode>>) -> (r: ASTNode)
        ensures
            r == (ASTNode::WhileLoop { condition, body }),
    {
        ASTNode::WhileLoop { condition, body }
    }

    pub fn new_for_each_loop(
        variable: String,
        iterable: Box<ASTNode>,
        body: Vec<Box<ASTNode>>,
    ) -> (r: ASTNode)
        ensures
            r == (ASTNode::ForEachLoop { variable, iterable, body }),
    {
        ASTNode::ForEachLoop { variable, iterable, body }
    }

    pub fn new_function_declaration(
        name: String,
        parameters: Vec<String>,
        body: Vec<Box<ASTNode>>,
    ) -> (r: ASTNode)
        ensures
            r == (ASTNode::FunctionDeclaration { name, parameters, body }),
    {
        ASTNode::FunctionDeclaration { name, parameters, body }
    }

    pub fn new_binary_op(left: Box<ASTNode>, operator: String, right: Box<ASTNode>) -> (r: ASTNode)
        ensures
            r == (ASTNode::BinaryOp { left, operator, right }),
    {
        ASTNode::BinaryOp { left, operator, right }
    }

    pub fn new_unary_op(operator: String, operand: Box<ASTNode>) -> (r: ASTNode)
        ensures
            r == (ASTNode::UnaryOp { operator, operand }),
    {
        ASTNode::UnaryOp { operator, operand }
    }

    pub fn new_function_call(name: String, arguments: Vec<Box<ASTNode>>) -> (r: ASTNode)
        ensures
            r == (ASTNode::FunctionCall { name, arguments }),
    {
        ASTNode::FunctionCall { name, arguments }
    }

    pub fn new_list_literal(elements: Vec<Box<ASTNode>>) -> (r: ASTNode)
        ensures
            r == ASTNode::ListLiteral(elements),
    {
        ASTNode::ListLiteral(elements)
    }

    pub fn new_dictionary_literal(pairs: Vec<(String, Box<ASTNode>)>) -> (r: ASTNode)
        ensures
            r == ASTNode::DictionaryLiteral(pairs),
    {
        ASTNode::DictionaryLiteral(pairs)
    }

    pub fn new_index_access(object: Box<ASTNode>, index: Box<ASTNode>) -> (r: ASTNode)
        ensures
            r == (ASTNode::IndexAccess { object, index }),
    {
        ASTNode::IndexAccess { object, index }
    }

    pub fn new_import(filename: String) -> (r: ASTNode)
        ensures
            r == (ASTNode::Import { filename }),
    {
        ASTNode::Import { filename }
    }

    pub fn new_index_assignment(object: Box<ASTNode>, index: Box<ASTNode>, value: Box<ASTNode>) -> (r: ASTNode)
        ensures
            r == (ASTNode::IndexAssignment { object, index, value }),
    {
        ASTNode::IndexAssignment { object, index, value }
    }
}


fn duplicate_name(s: &String) -> (r: String)
    ensures
        r@ == s@,
{
    s.clone()
}

fn duplicate_names(ns: &Vec<String>) -> (r: Vec<String>)
    ensures
        names_view(r@) == names_view(ns@),
{
    let mut r: Vec<String> = Vec::new();
    let mut i: usize = 0;
    while i < ns.len()
        invariant
            i <= ns.len(),
            names_view(r@) == names_view(ns@.take(i as int)),
        decreases ns.len() - i,
    {
        proof {
            lemma_names_view_push(r@, ns@[i as int]);
            assert(ns@.take(i + 1) == ns@.take(i as int).push(ns@[i as int]));
            lemma_names_view_push(ns@.take(i as int), ns@[i as int]);
        }
        r.push(duplicate_name(&ns[i]));
        i = i + 1;
    }
    assert(ns@.take(ns.len() as int) == ns@);
    r
}

impl ASTNode {
    /// A copy of this tree that owns its own nodes.
    pub fn duplicate(&self) -> (r: ASTNode)
        ensures
            r@ == self@,
        decreases self,
    {
        match self {
            ASTNode::Program(xs) => ASTNode::Program(duplicate_list(xs)),
            ASTNode::VarDeclaration { name, type_hint, value } => ASTNode::VarDeclaration {
                name: duplicate_name(name),
                type_hint: match type_hint {
                    Some(t) => Some(duplicate_name(t)),
                    None => None,
                },
                value: Box::new(value.duplicate()),
            },
            ASTNode::Assignment { name, value } => ASTNode::Assignment {
                name: duplicate_name(name),
                value: Box::new(value.duplicate()),
            },
            ASTNode::IfStatement { condition, then_block, else_block } => ASTNode::IfStatement {
                condition: Box::new(condition.duplicate()),
                then_block: duplicate_list(then_block),
                else_block: match else_block {
                    Some(e) => Some(duplicate_list(e)),
                    None => None,
                },
            },
            ASTNode::WhileLoop { condition, body } => ASTNode::WhileLoop {
                condition: Box::new(condition.duplicate()),
                body: duplicate_list(body),
            },
            ASTNode::ForEachLoop { variable, iterable, body } => ASTNode::ForEachLoop {
                variable: duplicate_name(variable),
                iterable: Box::new(iterable.duplicate()),
                body: duplicate_list(body),
            },
            ASTNode::FunctionDeclaration { name, parameters, body } => {
                ASTNode::FunctionDeclaration {
                    name: duplicate_name(name),
                    parameters: duplicate_names(parameters),
                    body: duplicate_list(body),
                }
            },
            ASTNode::Return(e) => ASTNode::Return(Box::new(e.duplicate())),
            ASTNode::Print(e) => ASTNode::Print(Box::new(e.duplicate())),
            ASTNode::Break => ASTNode::Break,
            ASTNode::Continue => ASTNode::Continue,
            ASTNode::Import { filename } => ASTNode::Import { filename: duplicate_name(filename) },
            ASTNode::BinaryOp { left, operator, right } => ASTNode::BinaryOp {
                left: Box::new(left.duplicate()),
                operator: duplicate_name(operator),
                right: Box::new(right.duplicate()),
            },
            ASTNode::UnaryOp { operator, operand } => ASTNode::UnaryOp {
                operator: duplicate_name(operator),
                operand: Box::new(operand.duplicate()),
            },
            ASTNode::FunctionCall { name, arguments } => ASTNode::FunctionCall {
                name: duplicate_name(name),
                arguments: duplicate_list(arguments),
            },
            ASTNode::ListLiteral(xs) => ASTNode::ListLiteral(duplicate_list(xs)),
            ASTNode::DictionaryLiteral(ps) => ASTNode::DictionaryLiteral(duplicate_pairs(ps)),
            ASTNode::IndexAccess { object, index } => ASTNode::IndexAccess {
                object: Box::new(object.duplicate()),
                index: Box::new(index.duplicate()),
            },
            ASTNode::IndexAssignment { object, index, value } => ASTNode::IndexAssignment {
                object: Box::new(object.duplicate()),
                index: Box::new(index.duplicate()),
                value: Box::new(value.duplicate()),
            },
            ASTNode::Identifier(s) => ASTNode::Identifier(duplicate_name(s)),
            ASTNode::Number(s) => ASTNode::Number(duplicate_name(s)),
            ASTNode::String(s) => ASTNode::String(duplicate_name(s)),
            ASTNode::Boolean(b) => ASTNode::Boolean(*b),
        }
    }
}

/// Copies of the nodes of a list.
pub fn duplicate_list(xs: &Vec<Box<ASTNode>>) -> (r: Vec<Box<ASTNode>>)
    ensures
        nodes_view(r@) == nodes_view(xs@),
    decreases xs,
{
    let mut r: Vec<Box<ASTNode>> = Vec::new();
    let mut i: usize = 0;
    while i < xs.len()
        invariant
            i <= xs.len(),
            r@.len() == i,
            forall|j: int| 0 <= j < i ==> node_view(*r@[j]) == node_view(*xs@[j]),
        decreases xs.len() - i,
    {
        proof {
            vstd::std_specs::vec::axiom_vec_index_decreases(*xs, i as int);
        }
        let c = xs[i].duplicate();
        r.push(Box::new(c));
        i = i + 1;
    }
    assert(nodes_view(r@) =~= nodes_view(xs@));
    r
}

/// Copies of the entries of a dictionary literal.
pub fn duplicate_pairs(ps: &Vec<(String, Box<ASTNode>)>) -> (r: Vec<(String, Box<ASTNode>)>)
    ensures
        pairs_view(r@) == pairs_view(ps@),
    decreases ps,
{
    let mut r: Vec<(String, Box<ASTNode>)> = Vec::new();
    let mut i: usize = 0;
    while i < ps.len()
        invariant
            i <= ps.len(),
            r@.len() == i,
            forall|j: int|
                0 <= j < i ==> r@[j].0@ == ps@[j].0@ && node_view(*r@[j].1) == node_view(*ps@[j].1),
        decreases ps.len() - i,
    {
        proof {
            vstd::std_specs::vec::axiom_vec_index_decreases(*ps, i as int);
        }
        let k = duplicate_name(&ps[i].0);
        let c = ps[i].1.duplicate();
        r.push((k, Box::new(c)));
        i = i + 1;
    }
    assert(pairs_view(r@) =~= pairs_view(ps@));
    r
}

} // verus!
