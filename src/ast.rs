use vstd::prelude::*;

verus! {

/// The mathematical form of a syntax tree node: texts as character sequences,
/// children as sequences of nodes.
#[allow(inconsistent_fields)]
pub enum Node {
    Var { name: Seq<char>, value: Box<Node> },
    Number { value: Seq<char> },
    Str { value: Seq<char> },
    Identifier { name: Seq<char> },
    Binary { op: Seq<char>, left: Box<Node>, right: Box<Node> },
    Call { callee: Seq<char>, args: Seq<Node> },
    Function { name: Seq<char>, params: Seq<Seq<char>>, body: Seq<Node> },
    Return { value: Option<Box<Node>> },
}

#[derive(Debug)]
pub struct Var {
    pub name: String,
    pub value: Box<Ast>,
}

/// A numeric literal, kept as the run of digits it was written with.
#[derive(Debug)]
pub struct Number {
    pub value: String,
}

#[derive(Debug)]
pub struct Str {
    pub value: String,
}

#[derive(Debug)]
pub struct Identifier {
    pub name: String,
}

#[derive(Debug)]
pub struct Binary {
    pub op: String,
    pub left: Box<Ast>,
    pub right: Box<Ast>,
}

#[derive(Debug)]
pub struct Call {
    pub callee: String,
    pub args: Vec<Ast>,
}

#[derive(Debug)]
pub struct Function {
    pub name: String,
    pub params: Vec<String>,
    pub body: Vec<Ast>,
}

#[derive(Debug)]
pub struct Return {
    pub value: Option<Box<Ast>>,
}

#[derive(Debug)]
pub enum Ast {
    Var(Var),
    Number(Number),
    Str(Str),
    Identifier(Identifier),
    Binary(Binary),
    Call(Call),
    Function(Function),
    Return(Return),
}

impl Ast {
    pub open spec fn view(&self) -> Node
        decreases self,
    {
        match self {
            Ast::Var(v) => Node::Var { name: v.name@, value: Box::new(v.value.view()) },
            Ast::Number(n) => Node::Number { value: n.value@ },
            Ast::Str(s) => Node::Str { value: s.value@ },
            Ast::Identifier(i) => Node::Identifier { name: i.name@ },
            Ast::Binary(b) => Node::Binary {
                op: b.op@,
                left: Box::new(b.left.view()),
                right: Box::new(b.right.view()),
            },
            Ast::Call(c) => Node::Call { callee: c.callee@, args: views_of(c.args@) },
            Ast::Function(f) => Node::Function {
                name: f.name@,
                params: f.params@.map_values(|p: String| p@),
                body: views_of(f.body@),
            },
            Ast::Return(r) => Node::Return {
                value: match r.value {
                    Some(v) => Some(Box::new(v.view())),
                    None => None,
                },
            },
        }
    }
}

/// The nodes that a sequence of trees stands for, in order.
pub open spec fn views_of(s: Seq<Ast>) -> Seq<Node>
    decreases s,
{
    if s.len() == 0 {
        Seq::empty()
    } else {
        views_of(s.drop_last()).push(s.last().view())
    }
}

pub proof fn lemma_views_of(s: Seq<Ast>)
    ensures
        views_of(s).len() == s.len(),
        forall|i: int| 0 <= i < s.len() ==> #[trigger] views_of(s)[i] == s[i].view(),
    decreases s.len(),
{
    if s.len() > 0 {
        lemma_views_of(s.drop_last());
    }
}

/// `n` levels of indentation: two spaces each.
pub open spec fn indent_text(n: nat) -> Seq<char> {
    Seq::new(2 * n, |i: int| ' ')
}

/// The texts `ps` joined with `", "` between them.
pub open spec fn join(ps: Seq<Seq<char>>) -> Seq<char>
    decreases ps.len(),
{
    if ps.len() == 0 {
        Seq::empty()
    } else if ps.len() == 1 {
        ps[0]
    } else {
        join(ps.drop_last()) + ", "@ + ps.last()
    }
}

/// The lines that show the node `n` as an indented tree, each starting with `p`.
pub open spec fn render(n: Node, p: Seq<char>) -> Seq<Seq<char>>
    decreases n,
{
    let deeper = p + "  "@;
    match n {
        Node::Var { name, value } => seq![p + "Var "@ + name] + render(*value, deeper),
        Node::Number { value } => seq![p + "Number "@ + value],
        Node::Str { value } => seq![p + "String \""@ + value + "\""@],
        Node::Identifier { name } => seq![p + "Identifier "@ + name],
        Node::Binary { op, left, right } => seq![p + "Binary '"@ + op + "'"@] + render(*left, deeper)
            + render(*right, deeper),
        Node::Call { callee, args } => seq![p + "Call "@ + callee] + render_all(args, deeper),
        Node::Function { name, params, body } => seq![
            p + "Function "@ + name,
            deeper + "Parameters: "@ + join(params),
            deeper + "Body:"@,
        ] + render_all(body, deeper + "  "@),
        Node::Return { value } => seq![p + "Return"@] + match value {
            Some(v) => render(*v, deeper),
            None => Seq::empty(),
        },
    }
}

/// The lines of the nodes `ns`, one after another.
pub open spec fn render_all(ns: Seq<Node>, p: Seq<char>) -> Seq<Seq<char>>
    decreases ns,
{
    if ns.len() == 0 {
        Seq::empty()
    } else {
        render_all(ns.drop_last(), p) + render(ns.last(), p)
    }
}

pub open spec fn lines_view(ls: Seq<String>) -> Seq<Seq<char>> {
    ls.map_values(|l: String| l@)
}

/// The indentation for depth `indent`.
pub fn indent_str(indent: usize) -> (r: String)
    ensures
        r@ == indent_text(indent as nat),
{
    proof {
        reveal_strlit("  ");
    }
    let mut r = String::new();
    let mut k: usize = 0;
    while k < indent
        invariant
            k <= indent,
            r@ == indent_text(k as nat),
        decreases indent - k,
    {
        proof {
            reveal_strlit("  ");
            assert("  "@ =~= seq![' ', ' ']);
        }
        r.append("  ");
        assert(r@ =~= indent_text((k + 1) as nat));
        k = k + 1;
    }
    assert(r@ =~= indent_text(k as nat));
    r
}

fn line(p: &String, label: &str, text: &String) -> (r: String)
    ensures
        r@ == p@ + label@ + text@,
{
    let mut r = p.clone();
    r.append(label);
    r.append(text.as_str());
    r
}

fn push_lines(out: &mut Vec<String>, more: Vec<String>)
    ensures
        lines_view(final(out)@) == lines_view(old(out)@) + lines_view(more@),
{
    let ghost start = lines_view(out@);
    let mut i: usize = 0;
    while i < more.len()
        invariant
            i <= more@.len(),
            lines_view(out@) == start + lines_view(more@.take(i as int)),
        decreases more@.len() - i,
    {
        let l = more[i].clone();
        let ghost before = lines_view(out@);
        out.push(l);
        assert(lines_view(out@) =~= before.push(l@));
        assert(lines_view(more@.take(i + 1)) =~= lines_view(more@.take(i as int)).push(more@[i as int]@));
        assert(lines_view(out@) =~= start + lines_view(more@.take(i + 1)));
        i = i + 1;
    }
    assert(more@.take(i as int) =~= more@);
}

fn join_params(ps: &Vec<String>) -> (r: String)
    ensures
        r@ == join(ps@.map_values(|p: String| p@)),
{
    let ghost v = ps@.map_values(|p: String| p@);
    let mut r = String::new();
    let mut i: usize = 0;
    while i < ps.len()
        invariant
            i <= ps@.len(),
            v == ps@.map_values(|p: String| p@),
            r@ == join(v.take(i as int)),
        decreases ps@.len() - i,
    {
        assert(v.take(i + 1).drop_last() =~= v.take(i as int));
        if i > 0 {
            r.append(", ");
        } else {
            assert(r@ =~= Seq::<char>::empty());
        }
        r.append(ps[i].as_str());
        i = i + 1;
    }
    assert(v.take(i as int) =~= v);
    r
}

fn render_seq(asts: &Vec<Ast>, p: &String) -> (r: Vec<String>)
    ensures
        lines_view(r@) == render_all(views_of(asts@), p@),
    decreases asts@, 0nat,
{
    proof {
        lemma_views_of(asts@);
    }
    let ghost ns = views_of(asts@);
    let mut out: Vec<String> = Vec::new();
    let mut i: usize = 0;
    assert(lines_view(out@) =~= render_all(ns.take(0), p@));
    while i < asts.len()
        invariant
            i <= asts@.len(),
            ns == views_of(asts@),
            ns.len() == asts@.len(),
            forall|k: int| 0 <= k < asts@.len() ==> #[trigger] ns[k] == asts@[k].view(),
            lines_view(out@) == render_all(ns.take(i as int), p@),
        decreases asts@.len() - i,
    {
        let sub = asts[i].render_at(p);
        push_lines(&mut out, sub);
        assert(ns.take(i + 1).drop_last() =~= ns.take(i as int));
        i = i + 1;
    }
    assert(ns.take(i as int) =~= ns);
    out
}

impl Ast {
    /// The lines that show this tree, indented by `indent` levels of two spaces.
    pub fn render(&self, indent: usize) -> (r: Vec<String>)
        ensures
            lines_view(r@) == render(self@, indent_text(indent as nat)),
    {
        let p = indent_str(indent);
        self.render_at(&p)
    }

    fn render_at(&self, p: &String) -> (r: Vec<String>)
        ensures
            lines_view(r@) == render(self@, p@),
        decreases self, 1nat,
    {
        let mut deeper = p.clone();
        deeper.append("  ");
        let mut out: Vec<String> = Vec::new();
        match self {
            Ast::Var(v) => {
                out.push(line(p, "Var ", &v.name));
                push_lines(&mut out, v.value.render_at(&deeper));
            },
            Ast::Number(n) => {
                out.push(line(p, "Number ", &n.value));
            },
            Ast::Str(s) => {
                let mut l = line(p, "String \"", &s.value);
                l.append("\"");
                out.push(l);
            },
            Ast::Identifier(i) => {
                out.push(line(p, "Identifier ", &i.name));
            },
            Ast::Binary(b) => {
                let mut l = line(p, "Binary '", &b.op);
                l.append("'");
                out.push(l);
                push_lines(&mut out, b.left.render_at(&deeper));
                push_lines(&mut out, b.right.render_at(&deeper));
            },
            Ast::Call(c) => {
                out.push(line(p, "Call ", &c.callee));
                push_lines(&mut out, render_seq(&c.args, &deeper));
            },
            Ast::Function(f) => {
                out.push(line(p, "Function ", &f.name));
                out.push(line(&deeper, "Parameters: ", &join_params(&f.params)));
                let mut body_label = deeper.clone();
                body_label.append("Body:");
                out.push(body_label);
                let mut inner = deeper.clone();
                inner.append("  ");
                push_lines(&mut out, render_seq(&f.body, &inner));
            },
            Ast::Return(r) => {
                out.push(line(p, "Return", &String::new()));
                if let Some(v) = &r.value {
                    push_lines(&mut out, v.render_at(&deeper));
                }
            },
        }
        out
    }
}

} // verus!
