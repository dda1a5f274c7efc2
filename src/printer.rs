use vstd::prelude::*;
use crate::expr::{Binary, Expr, Grouping, Literal, Unary, Visitor};
use crate::text::push_char;
use vstd::array::array_as_slice;
use vstd::string::StringExecFns;

verus! {

/// Renders an expression tree in fully parenthesized prefix form.
pub struct AstPrinter;

/// The parts, each preceded by a space.
pub open spec fn spaced(parts: Seq<Seq<char>>) -> Seq<char>
    decreases parts.len(),
{
    if parts.len() == 0 {
        seq![]
    } else {
        spaced(parts.drop_last()) + seq![' '] + parts.last()
    }
}

/// `(name part1 part2 ...)`.
pub open spec fn parenthesized(name: Seq<char>, parts: Seq<Seq<char>>) -> Seq<char> {
    seq!['('] + name + spaced(parts) + seq![')']
}

pub open spec fn group_label() -> Seq<char> {
    seq!['g', 'r', 'o', 'u', 'p']
}

/// The printed form of a tree: operators and the `group` label lead their
/// parenthesized operands; a literal is its lexeme.
pub open spec fn printed(e: Expr) -> Seq<char>
    decreases e,
{
    match e {
        Expr::Binary(b) => parenthesized(b.operator.lexeme@, seq![printed(*b.left), printed(*b.right)]),
        Expr::Grouping(g) => parenthesized(group_label(), seq![printed(*g.expr)]),
        Expr::Literal(l) => l.value.lexeme@,
        Expr::Unary(u) => parenthesized(u.operator.lexeme@, seq![printed(*u.right)]),
    }
}

pub open spec fn printed_all(es: Seq<&Expr>) -> Seq<Seq<char>> {
    es.map_values(|e: &Expr| printed(*e))
}

/// The number of nodes in a tree.
pub open spec fn expr_size(e: Expr) -> nat
    decreases e,
{
    match e {
        Expr::Binary(b) => 1 + expr_size(*b.left) + expr_size(*b.right),
        Expr::Grouping(g) => 1 + expr_size(*g.expr),
        Expr::Literal(_) => 1,
        Expr::Unary(u) => 1 + expr_size(*u.right),
    }
}

pub open spec fn total_size(es: Seq<&Expr>) -> nat
    decreases es.len(),
{
    if es.len() == 0 {
        0
    } else {
        total_size(es.drop_last()) + expr_size(*es.last())
    }
}

proof fn lemma_total_size_bounds(es: Seq<&Expr>, i: int)
    requires
        0 <= i < es.len(),
    ensures
        expr_size(*es[i]) <= total_size(es),
    decreases es.len(),
{
    if i < es.len() - 1 {
        lemma_total_size_bounds(es.drop_last(), i);
    }
}

/// Appends `(`, `name`, each rendered operand after a space, and `)`.
pub fn parenthesize(name: &str, exprs: &[&Expr]) -> (r: String)
    ensures
        r@ == parenthesized(name@, printed_all(exprs@)),
    decreases 3 * total_size(exprs@) + 3,
{
    let mut s = String::new();
    push_char(&mut s, '(');
    s.append(name);
    let mut i: usize = 0;
    while i < exprs.len()
        invariant
            i <= exprs@.len(),
            s@ == seq!['('] + name@ + spaced(printed_all(exprs@.take(i as int))),
        decreases exprs@.len() - i,
    {
        proof {
            lemma_total_size_bounds(exprs@, i as int);
        }
        let part = render(exprs[i]);
        push_char(&mut s, ' ');
        s.append(part.as_str());
        proof {
            let taken = printed_all(exprs@.take(i + 1));
            assert(taken.drop_last() =~= printed_all(exprs@.take(i as int)));
            assert(taken.last() == printed(*exprs@[i as int]));
        }
        i = i + 1;
    }
    push_char(&mut s, ')');
    proof {
        assert(exprs@.take(i as int) =~= exprs@);
    }
    s
}

/// Renders a tree by matching on its variant.
fn render(e: &Expr) -> (r: String)
    ensures
        r@ == printed(*e),
    decreases 3 * expr_size(*e) + 2,
{
    match e {
        Expr::Binary(b) => render_binary(b),
        Expr::Grouping(g) => render_grouping(g),
        Expr::Literal(l) => l.value.lexeme.clone(),
        Expr::Unary(u) => render_unary(u),
    }
}

fn render_binary(b: &Binary) -> (r: String)
    ensures
        r@ == printed(Expr::Binary(*b)),
    decreases 3 * expr_size(Expr::Binary(*b)) + 1,
{
    let parts = [&*b.left, &*b.right];
    proof {
        let es = seq![&*b.left, &*b.right];
        assert(parts@ =~= es);
        assert(es.drop_last() =~= seq![&*b.left]);
        assert(es.drop_last().drop_last() =~= Seq::<&Expr>::empty());
        assert(total_size(Seq::<&Expr>::empty()) == 0);
        assert(total_size(seq![&*b.left]) == expr_size(*b.left));
        assert(total_size(parts@) == expr_size(*b.left) + expr_size(*b.right));
        assert(printed_all(es) =~= seq![printed(*b.left), printed(*b.right)]);
    }
    parenthesize(b.operator.lexeme.as_str(), array_as_slice(&parts))
}

fn render_grouping(g: &Grouping) -> (r: String)
    ensures
        r@ == printed(Expr::Grouping(*g)),
    decreases 3 * expr_size(Expr::Grouping(*g)) + 1,
{
    let parts = [&*g.expr];
    proof {
        let es = seq![&*g.expr];
        assert(parts@ =~= es);
        assert(es.drop_last() =~= Seq::<&Expr>::empty());
        assert(total_size(Seq::<&Expr>::empty()) == 0);
        assert(total_size(parts@) == expr_size(*g.expr));
        assert(printed_all(es) =~= seq![printed(*g.expr)]);
        reveal_strlit("group");
        assert("group"@ =~= group_label());
    }
    parenthesize("group", array_as_slice(&parts))
}

fn render_unary(u: &Unary) -> (r: String)
    ensures
        r@ == printed(Expr::Unary(*u)),
    decreases 3 * expr_size(Expr::Unary(*u)) + 1,
{
    let parts = [&*u.right];
    proof {
        let es = seq![&*u.right];
        assert(parts@ =~= es);
        assert(es.drop_last() =~= Seq::<&Expr>::empty());
        assert(total_size(Seq::<&Expr>::empty()) == 0);
        assert(total_size(parts@) == expr_size(*u.right));
        assert(printed_all(es) =~= seq![printed(*u.right)]);
    }
    parenthesize(u.operator.lexeme.as_str(), array_as_slice(&parts))
}

impl AstPrinter {
    /// The printed form of `expr`, reached through the visitor methods.
    pub fn print(&self, expr: Expr) -> (r: String)
        ensures
            r@ == printed(expr),
    {
        expr.accept(self)
    }
}

impl Visitor<String> for AstPrinter {
    open spec fn binary_post(&self, binary: &Binary, r: String) -> bool {
        r@ == printed(Expr::Binary(*binary))
    }

    open spec fn grouping_post(&self, grouping: &Grouping, r: String) -> bool {
        r@ == printed(Expr::Grouping(*grouping))
    }

    open spec fn literal_post(&self, literal: &Literal, r: String) -> bool {
        r@ == printed(Expr::Literal(*literal))
    }

    open spec fn unary_post(&self, unary: &Unary, r: String) -> bool {
        r@ == printed(Expr::Unary(*unary))
    }

    fn visit_binary_expr(&self, binary: &Binary) -> (r: String) {
        render_binary(binary)
    }

    fn visit_grouping_expr(&self, grouping: &Grouping) -> (r: String) {
        render_grouping(grouping)
    }

    fn visit_literal_expr(&self, literal: &Literal) -> (r: String) {
        literal.value.lexeme.clone()
    }

    fn visit_unary_expr(&self, unary: &Unary) -> (r: String) {
        render_unary(unary)
    }
}

} // verus!
