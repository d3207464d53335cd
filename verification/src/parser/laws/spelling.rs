//! The law of spelling: the case of keywords does not matter.
use vstd::prelude::*;

#[allow(unused_imports)]
use crate::parser::grammar::{body_of, is_token, keeps_case};
#[allow(unused_imports)]
use crate::parser::laws::{law_matches_stand_in_text, lemma_blank_end, stands_in};
#[allow(unused_imports)]
use crate::parser::peg::{
    blank_end, comment_end, depth_for, in_class, larger, line_end, next_part, run, run_more,
    word_at, Class, Peg, Step,
};
#[allow(unused_imports)]
use crate::parser::query::{parsed, whole_match};
#[allow(unused_imports)]
use crate::parser::tree::{seen_from, Rule, Tree};
#[allow(unused_imports)]
use crate::text::{byte_len, is_white, lower, lower_text, same_ignoring_case};

verus! {

// ── Characters ───────────────────────────────────────────────────────────────

proof fn lemma_same_char(a: Seq<char>, b: Seq<char>, i: int)
    requires
        same_ignoring_case(a, b),
        0 <= i < a.len(),
    ensures
        a.len() == b.len(),
        lower(a[i]) == lower(b[i]),
{
    assert(lower_text(a).len() == a.len());
    assert(lower_text(b).len() == b.len());
    assert(lower_text(a)[i] == lower(a[i]));
    assert(lower_text(b)[i] == lower(b[i]));
}

proof fn lemma_same_len(a: Seq<char>, b: Seq<char>)
    requires
        same_ignoring_case(a, b),
    ensures
        a.len() == b.len(),
{
    assert(lower_text(a).len() == a.len());
    assert(lower_text(b).len() == b.len());
}

proof fn lemma_same_part(a: Seq<char>, b: Seq<char>, i: int, j: int)
    requires
        same_ignoring_case(a, b),
        0 <= i <= j <= a.len(),
    ensures
        lower_text(a.subrange(i, j)) == lower_text(b.subrange(i, j)),
{
    lemma_same_len(a, b);
    assert forall|k: int| 0 <= k < j - i implies lower_text(a.subrange(i, j))[k] == lower_text(
        b.subrange(i, j),
    )[k] by {
        lemma_same_char(a, b, i + k);
    }
    assert(lower_text(a.subrange(i, j)) =~= lower_text(b.subrange(i, j)));
}

pub proof fn lemma_same_class(c: char, d: char, k: Class)
    requires
        lower(c) == lower(d),
    ensures
        in_class(c, k) == in_class(d, k),
        is_white(c) == is_white(d),
        (c == '/') == (d == '/'),
        (c == '*') == (d == '*'),
        (c == '\n') == (d == '\n'),
{
}

proof fn lemma_same_word(a: Seq<char>, b: Seq<char>, w: Seq<char>, i: int)
    requires
        same_ignoring_case(a, b),
    ensures
        word_at(a, w, i) == word_at(b, w, i),
{
    lemma_same_len(a, b);
    if 0 <= i && i + w.len() <= a.len() {
        assert forall|k: int| 0 <= k < w.len() implies (lower(#[trigger] w[k]) == lower(a[i + k]))
            == (lower(w[k]) == lower(b[i + k])) by {
            lemma_same_char(a, b, i + k);
        }
    }
}

proof fn lemma_same_line(a: Seq<char>, b: Seq<char>, i: int)
    requires
        same_ignoring_case(a, b),
        0 <= i,
    ensures
        line_end(a, i) == line_end(b, i),
    decreases a.len() - i,
{
    lemma_same_len(a, b);
    if i < a.len() {
        lemma_same_char(a, b, i);
        lemma_same_class(a[i], b[i], Class::Any);
        lemma_same_line(a, b, i + 1);
    }
}

proof fn lemma_same_comment(a: Seq<char>, b: Seq<char>, i: int)
    requires
        same_ignoring_case(a, b),
        0 <= i,
    ensures
        comment_end(a, i) == comment_end(b, i),
    decreases a.len() - i,
{
    lemma_same_len(a, b);
    if i + 2 <= a.len() {
        lemma_same_char(a, b, i);
        lemma_same_char(a, b, i + 1);
        lemma_same_class(a[i], b[i], Class::Any);
        lemma_same_class(a[i + 1], b[i + 1], Class::Any);
        lemma_same_comment(a, b, i + 1);
    }
}

proof fn lemma_same_blanks(a: Seq<char>, b: Seq<char>, i: int)
    requires
        same_ignoring_case(a, b),
        0 <= i,
    ensures
        blank_end(a, i) == blank_end(b, i),
    decreases a.len() - i,
{
    lemma_same_len(a, b);
    if i < a.len() {
        lemma_same_char(a, b, i);
        lemma_same_class(a[i], b[i], Class::Any);
        lemma_same_blanks(a, b, i + 1);
        if i + 1 < a.len() {
            lemma_same_char(a, b, i + 1);
            lemma_same_class(a[i + 1], b[i + 1], Class::Any);
            lemma_same_line(a, b, i + 2);
            lemma_same_comment(a, b, i + 2);
            let e = line_end(a, i + 2);
            if i < e <= a.len() {
                lemma_same_blanks(a, b, e);
            }
            let e = comment_end(a, i + 2);
            if i < e <= a.len() {
                lemma_same_blanks(a, b, e);
            }
        }
    }
}

proof fn lemma_same_bytes(a: Seq<char>, b: Seq<char>, k: int)
    requires
        same_ignoring_case(a, b),
    ensures
        byte_len(a, k) == byte_len(b, k),
    decreases k,
{
    lemma_same_len(a, b);
    if 0 < k <= a.len() {
        lemma_same_char(a, b, k - 1);
        lemma_same_bytes(a, b, k - 1);
    }
}

// ── Trees ────────────────────────────────────────────────────────────────────

/// Whether two trees are the same up to the case of letters.
spec fn alike(x: Tree, y: Tree) -> bool
    decreases x,
{
    &&& x.rule == y.rule
    &&& x.start == y.start
    &&& x.text.len() == y.text.len()
    &&& !keeps_case(x.rule) ==> x.text == y.text
    &&& all_alike(x.children, y.children)
}

spec fn all_alike(x: Seq<Tree>, y: Seq<Tree>) -> bool
    decreases x,
{
    &&& x.len() == y.len()
    &&& forall|i: int| 0 <= i < x.len() ==> alike(#[trigger] x[i], y[i])
}

spec fn alike_steps(x: Step, y: Step) -> bool {
    match (x, y) {
        (Step::Fail { far: f }, Step::Fail { far: g }) => f == g,
        (Step::Deep, Step::Deep) => true,
        (Step::Match { end, nodes, far }, Step::Match { end: e, nodes: n, far: g }) => end == e
            && far == g && all_alike(nodes, n),
        _ => false,
    }
}

proof fn lemma_seen_alike(x: Seq<Tree>, y: Seq<Tree>, i: int)
    requires
        all_alike(x, y),
    ensures
        all_alike(seen_from(x, i), seen_from(y, i)),
{
    assert forall|k: int| 0 <= k < x.len() implies alike(
        #[trigger] seen_from(x, i)[k],
        seen_from(y, i)[k],
    ) by {
        assert(alike(x[k], y[k]));
    }
}

proof fn lemma_joined_alike(x: Seq<Tree>, y: Seq<Tree>, v: Seq<Tree>, w: Seq<Tree>)
    requires
        all_alike(x, y),
        all_alike(v, w),
    ensures
        all_alike(x + v, y + w),
{
    assert forall|k: int| 0 <= k < x.len() + v.len() implies alike(
        #[trigger] (x + v)[k],
        (y + w)[k],
    ) by {
        if k < x.len() {
            assert(alike(x[k], y[k]));
        } else {
            assert(alike(v[k - x.len()], w[k - x.len()]));
        }
    }
}

/// Texts that are the same up to the case of letters are matched alike.
proof fn lemma_alike(
    p: Peg,
    a: Seq<char>,
    b: Seq<char>,
    i: int,
    token: bool,
    gql: bool,
    depth: nat,
)
    requires
        same_ignoring_case(a, b),
        0 <= i <= a.len(),
    ensures
        alike_steps(run(p, a, i, token, gql, depth), run(p, b, i, token, gql, depth)),
    decreases depth, p, 0int,
{
    lemma_same_len(a, b);
    match p {
        Peg::Word(t) => {
            lemma_same_word(a, b, t@, i);
        },
        Peg::One(k) => {
            if i < a.len() {
                lemma_same_char(a, b, i);
                lemma_same_class(a[i], b[i], k);
            }
        },
        Peg::Call(r) => {
            if depth > 0 {
                let d = (depth - 1) as nat;
                let body = body_of(r, gql);
                lemma_alike(body, a, b, i, token || is_token(r), gql, d);
                law_matches_stand_in_text(body, a, i, token || is_token(r), gql, d);
                let x = run(body, a, i, token || is_token(r), gql, d);
                let y = run(body, b, i, token || is_token(r), gql, d);
                if let Step::Match { end, nodes, far } = x {
                    lemma_same_part(a, b, i, end);
                    lemma_seen_alike(nodes, y->nodes, i);
                    let t = run(p, a, i, token, gql, depth)->nodes[0];
                    let u = run(p, b, i, token, gql, depth)->nodes[0];
                    assert(all_alike(t.children, u.children));
                    assert(t.text.len() == end - i);
                    assert(u.text.len() == end - i);
                    assert(alike(t, u));
                }
            }
        },
        Peg::Then(f, g) => {
            lemma_alike(*f, a, b, i, token, gql, depth);
            law_matches_stand_in_text(*f, a, i, token, gql, depth);
            let x = run(*f, a, i, token, gql, depth);
            let y = run(*f, b, i, token, gql, depth);
            if let Step::Match { end, nodes, far } = x {
                lemma_blank_end(a, end);
                lemma_same_blanks(a, b, end);
                let from = next_part(a, end, token);
                lemma_alike(*g, a, b, from, token, gql, depth);
                let v = run(*g, a, from, token, gql, depth);
                let w = run(*g, b, from, token, gql, depth);
                if v is Match {
                    lemma_joined_alike(nodes, y->nodes, v->nodes, w->nodes);
                }
            }
        },
        Peg::Or(f, g) => {
            lemma_alike(*f, a, b, i, token, gql, depth);
            lemma_alike(*g, a, b, i, token, gql, depth);
        },
        Peg::Maybe(f) => {
            lemma_alike(*f, a, b, i, token, gql, depth);
        },
        Peg::Not(f) => {
            lemma_alike(*f, a, b, i, token, gql, depth);
        },
        Peg::Many(f) => {
            lemma_alike(*f, a, b, i, token, gql, depth);
            law_matches_stand_in_text(*f, a, i, token, gql, depth);
            let y = run(*f, b, i, token, gql, depth);
            if let Step::Match { end, nodes, far } = run(*f, a, i, token, gql, depth) {
                lemma_more_alike(*f, a, b, end, nodes, y->nodes, far, token, gql, depth);
            }
        },
        _ => {},
    }
}

proof fn lemma_more_alike(
    p: Peg,
    a: Seq<char>,
    b: Seq<char>,
    end: int,
    x: Seq<Tree>,
    y: Seq<Tree>,
    f: int,
    token: bool,
    gql: bool,
    depth: nat,
)
    requires
        same_ignoring_case(a, b),
        0 <= end <= a.len(),
        all_alike(x, y),
    ensures
        alike_steps(
            run_more(p, a, end, x, f, token, gql, depth),
            run_more(p, b, end, y, f, token, gql, depth),
        ),
    decreases depth, p, 1 + a.len() - end,
{
    lemma_same_len(a, b);
    if end < a.len() {
        lemma_blank_end(a, end);
        lemma_same_blanks(a, b, end);
        let from = next_part(a, end, token);
        lemma_alike(p, a, b, from, token, gql, depth);
        let w = run(p, b, from, token, gql, depth);
        if let Step::Match { end: e, nodes, far } = run(p, a, from, token, gql, depth) {
            if end < e <= a.len() {
                lemma_joined_alike(x, y, nodes, w->nodes);
                let g = larger(f, far);
                lemma_more_alike(p, a, b, e, x + nodes, y + w->nodes, g, token, gql, depth);
            }
        }
    }
}

// ── Queries ──────────────────────────────────────────────────────────────────

/// Whether a text has the same letters as a tree, in the same case, wherever the
/// tree has a name or a literal that is taken as it is written.
pub open spec fn has_names(t: Tree, b: Seq<char>, base: int) -> bool
    decreases t,
{
    let from = base + t.start;
    &&& keeps_case(t.rule) ==> t.text == b.subrange(from, from + t.text.len())
    &&& all_have_names(t.children, b, from)
}

pub open spec fn all_have_names(v: Seq<Tree>, b: Seq<char>, base: int) -> bool
    decreases v,
{
    forall|i: int| 0 <= i < v.len() ==> has_names(#[trigger] v[i], b, base)
}

proof fn lemma_same_tree(x: Tree, y: Tree, b: Seq<char>, base: int)
    requires
        alike(x, y),
        stands_in(y, b, base),
        has_names(x, b, base),
    ensures
        x == y,
    decreases x,
{
    let from = base + x.start;
    assert forall|i: int| 0 <= i < x.children.len() implies x.children[i] == y.children[i] by {
        assert(alike(x.children[i], y.children[i]));
        assert(stands_in(y.children[i], b, from));
        assert(has_names(x.children[i], b, from));
        lemma_same_tree(x.children[i], y.children[i], b, from);
    }
    assert(x.children =~= y.children);
}

/// The case of letters matters in names and literals only: where two texts are
/// the same there, and elsewhere up to the case of letters, they are parsed to
/// the same clauses, or give the same error.
pub proof fn law_case_of_keywords(a: Seq<char>, b: Seq<char>, gql: bool)
    requires
        same_ignoring_case(a, b),
        whole_match(a, gql) matches Step::Match { end, nodes, far } ==> all_have_names(nodes, b, 0),
    ensures
        parsed(a, gql) == parsed(b, gql),
{
    let p = Peg::Call(Rule::query);
    lemma_same_len(a, b);
    let d = depth_for(a.len());
    lemma_alike(p, a, b, 0, false, gql, d);
    law_matches_stand_in_text(p, b, 0, false, gql, d);
    match whole_match(a, gql) {
        Step::Match { end, nodes, far } => {
            let x = nodes[0];
            let y = whole_match(b, gql)->nodes[0];
            assert(alike(x, y));
            assert(stands_in(y, b, 0));
            assert(has_names(x, b, 0));
            lemma_same_tree(x, y, b, 0);
        },
        Step::Fail { far } => {
            lemma_same_bytes(a, b, far);
        },
        Step::Deep => {
            lemma_same_bytes(a, b, 0);
        },
    }
}

} // verus!
