//! What is matched does not depend on what stands before it.
use vstd::prelude::*;

#[allow(unused_imports)]
use crate::parser::grammar::{body_of, is_token};
#[allow(unused_imports)]
use crate::parser::laws::{law_matches_stand_in_text, lemma_blank_end};
#[allow(unused_imports)]
use crate::parser::peg::{
    blank_end, comment_end, larger, line_end, next_part, run, run_more, word_at, Peg, Step,
};
#[allow(unused_imports)]
use crate::parser::tree::{seen_from, Tree};

verus! {

/// Whether two texts are the same from two places on.
pub open spec fn same_rest(a: Seq<char>, i: int, b: Seq<char>, j: int) -> bool {
    0 <= i <= a.len() && 0 <= j <= b.len() && a.skip(i) == b.skip(j)
}

/// The nodes, each so much further on.
pub open spec fn moved(v: Seq<Tree>, k: int) -> Seq<Tree> {
    seen_from(v, -k)
}

/// Whether two matches are the same, the second so much further on.
pub open spec fn is_shifted(x: Step, y: Step, k: int) -> bool {
    match (x, y) {
        (Step::Fail { far: f }, Step::Fail { far: g }) => true,
        (Step::Match { end, nodes, far }, Step::Match { end: e, nodes: n, far: g }) => e == end + k
            && n == moved(nodes, k),
        _ => false,
    }
}

pub proof fn lemma_rest(a: Seq<char>, i: int, b: Seq<char>, j: int, x: int)
    requires
        same_rest(a, i, b, j),
        0 <= x,
        i + x <= a.len(),
    ensures
        a.len() - i == b.len() - j,
        same_rest(a, i + x, b, j + x),
        i + x < a.len() ==> a[i + x] == b[j + x],
{
    assert(a.skip(i).len() == a.len() - i);
    assert(b.skip(j).len() == b.len() - j);
    assert(a.skip(i + x) =~= a.skip(i).skip(x));
    assert(b.skip(j + x) =~= b.skip(j).skip(x));
    if i + x < a.len() {
        assert(a[i + x] == a.skip(i)[x]);
        assert(b[j + x] == b.skip(j)[x]);
    }
}

proof fn lemma_shift_line(a: Seq<char>, i: int, b: Seq<char>, j: int)
    requires
        same_rest(a, i, b, j),
    ensures
        line_end(b, j) == line_end(a, i) + (j - i),
    decreases a.len() - i,
{
    lemma_rest(a, i, b, j, 0);
    if i < a.len() {
        lemma_rest(a, i, b, j, 1);
        lemma_shift_line(a, i + 1, b, j + 1);
    }
}

proof fn lemma_shift_comment(a: Seq<char>, i: int, b: Seq<char>, j: int)
    requires
        same_rest(a, i, b, j),
    ensures
        comment_end(a, i) == -1 ==> comment_end(b, j) == -1,
        comment_end(a, i) != -1 ==> comment_end(a, i) > i && comment_end(b, j) == comment_end(a, i)
            + (j - i),
    decreases a.len() - i,
{
    lemma_rest(a, i, b, j, 0);
    if i + 2 <= a.len() {
        lemma_rest(a, i, b, j, 1);
        lemma_shift_comment(a, i + 1, b, j + 1);
    }
}

pub proof fn lemma_shift_blanks(a: Seq<char>, i: int, b: Seq<char>, j: int)
    requires
        same_rest(a, i, b, j),
    ensures
        blank_end(b, j) == blank_end(a, i) + (j - i),
        same_rest(a, blank_end(a, i), b, blank_end(b, j)),
    decreases a.len() - i,
{
    lemma_rest(a, i, b, j, 0);
    lemma_blank_end(a, i);
    if i < a.len() {
        lemma_rest(a, i, b, j, 1);
        lemma_shift_blanks(a, i + 1, b, j + 1);
        if i + 1 < a.len() {
            lemma_rest(a, i, b, j, 2);
            lemma_shift_line(a, i + 2, b, j + 2);
            lemma_shift_comment(a, i + 2, b, j + 2);
            let e = line_end(a, i + 2);
            if i < e <= a.len() {
                lemma_rest(a, i, b, j, e - i);
                lemma_shift_blanks(a, e, b, e + (j - i));
            }
            let e = comment_end(a, i + 2);
            if i < e <= a.len() {
                lemma_rest(a, i, b, j, e - i);
                lemma_shift_blanks(a, e, b, e + (j - i));
            }
        }
    }
    lemma_rest(a, i, b, j, blank_end(a, i) - i);
}

proof fn lemma_shift_word(a: Seq<char>, i: int, b: Seq<char>, j: int, w: Seq<char>)
    requires
        same_rest(a, i, b, j),
    ensures
        word_at(a, w, i) == word_at(b, w, j),
{
    lemma_rest(a, i, b, j, 0);
    if i + w.len() <= a.len() {
        assert forall|k: int| 0 <= k < w.len() implies a[i + k] == #[trigger] b[j + k] by {
            lemma_rest(a, i, b, j, k);
        }
        if word_at(a, w, i) {
            assert forall|k: int| 0 <= k < w.len() implies crate::text::lower(#[trigger] w[k])
                == crate::text::lower(b[j + k]) by {}
        }
        if word_at(b, w, j) {
            assert forall|k: int| 0 <= k < w.len() implies crate::text::lower(#[trigger] w[k])
                == crate::text::lower(a[i + k]) by {
                assert(a[i + k] == b[j + k]);
            }
        }
    }
}

proof fn lemma_moved_join(x: Seq<Tree>, y: Seq<Tree>, k: int)
    ensures
        moved(x + y, k) == moved(x, k) + moved(y, k),
{
    assert(moved(x + y, k) =~= moved(x, k) + moved(y, k));
}

/// What is matched from a place on depends on the text from that place on only.
/// More nesting may be allowed for the second text.
pub proof fn lemma_shift(
    p: Peg,
    a: Seq<char>,
    i: int,
    b: Seq<char>,
    j: int,
    token: bool,
    gql: bool,
    d: nat,
    e: nat,
)
    requires
        same_rest(a, i, b, j),
        d <= e,
        !(run(p, a, i, token, gql, d) is Deep),
    ensures
        is_shifted(run(p, a, i, token, gql, d), run(p, b, j, token, gql, e), j - i),
        run(p, a, i, token, gql, d) matches Step::Match { end, nodes, far } ==> same_rest(
            a,
            end,
            b,
            end + (j - i),
        ) && end >= i,
    decreases d, p, 0int,
{
    let k = j - i;
    lemma_rest(a, i, b, j, 0);
    law_matches_stand_in_text(p, a, i, token, gql, d);
    if let Step::Match { end, nodes, far } = run(p, a, i, token, gql, d) {
        lemma_rest(a, i, b, j, end - i);
    }
    match p {
        Peg::Word(t) => {
            lemma_shift_word(a, i, b, j, t@);
            assert(moved(seq![], k) =~= seq![]);
        },
        Peg::One(c) => {
            assert(moved(seq![], k) =~= seq![]);
        },
        Peg::Nothing => {
            assert(moved(seq![], k) =~= seq![]);
        },
        Peg::End => {
            assert(moved(seq![], k) =~= seq![]);
        },
        Peg::Call(r) => {
            let t = token || is_token(r);
            let body = body_of(r, gql);
            let d1 = (d - 1) as nat;
            let e1 = (e - 1) as nat;
            lemma_shift(body, a, i, b, j, t, gql, d1, e1);
            if let Step::Match { end, nodes, far } = run(body, a, i, t, gql, d1) {
                assert(a.subrange(i, end) =~= b.subrange(j, end + k)) by {
                    assert forall|x: int| 0 <= x < end - i implies a[i + x] == #[trigger] b[j
                        + x] by {
                        lemma_rest(a, i, b, j, x);
                    }
                }
                assert(seen_from(moved(nodes, k), j) =~= seen_from(nodes, i));
                let x = run(p, a, i, token, gql, d);
                let y = run(p, b, j, token, gql, e);
                assert(y->nodes =~= moved(x->nodes, k));
            }
        },
        Peg::Then(f, g) => {
            lemma_shift(*f, a, i, b, j, token, gql, d, e);
            if let Step::Match { end, nodes, far } = run(*f, a, i, token, gql, d) {
                lemma_shift_blanks(a, end, b, end + k);
                let from = next_part(a, end, token);
                lemma_shift(*g, a, from, b, from + k, token, gql, d, e);
                if let Step::Match { end: e2, nodes: more, far: f2 } = run(
                    *g,
                    a,
                    from,
                    token,
                    gql,
                    d,
                ) {
                    lemma_moved_join(nodes, more, k);
                }
            }
        },
        Peg::Or(f, g) => {
            lemma_shift(*f, a, i, b, j, token, gql, d, e);
            if run(*f, a, i, token, gql, d) is Fail {
                lemma_shift(*g, a, i, b, j, token, gql, d, e);
            }
        },
        Peg::Maybe(f) => {
            lemma_shift(*f, a, i, b, j, token, gql, d, e);
            assert(moved(seq![], k) =~= seq![]);
        },
        Peg::Not(f) => {
            lemma_shift(*f, a, i, b, j, token, gql, d, e);
            assert(moved(seq![], k) =~= seq![]);
        },
        Peg::Many(f) => {
            lemma_shift(*f, a, i, b, j, token, gql, d, e);
            assert(moved(seq![], k) =~= seq![]);
            let y = run(*f, b, j, token, gql, e);
            if let Step::Match { end, nodes, far } = run(*f, a, i, token, gql, d) {
                lemma_shift_more(
                    *f,
                    a,
                    end,
                    nodes,
                    far,
                    b,
                    end + k,
                    y->nodes,
                    y->Match_far,
                    token,
                    gql,
                    d,
                    e,
                );
                let x = run(p, a, i, token, gql, d);
                lemma_moved_join(nodes, x->nodes.skip(nodes.len() as int), k);
            }
        },
    }
}

/// The repetition goes on with the same nodes, whatever came before.
pub proof fn lemma_shift_more(
    p: Peg,
    a: Seq<char>,
    i: int,
    x: Seq<Tree>,
    f: int,
    b: Seq<char>,
    j: int,
    y: Seq<Tree>,
    g: int,
    token: bool,
    gql: bool,
    d: nat,
    e: nat,
)
    requires
        same_rest(a, i, b, j),
        d <= e,
        !(run_more(p, a, i, x, f, token, gql, d) is Deep),
    ensures
        ({
            let v = run_more(p, a, i, x, f, token, gql, d);
            let w = run_more(p, b, j, y, g, token, gql, e);
            let tail = v->nodes.skip(x.len() as int);
            &&& v is Match
            &&& w is Match
            &&& v->Match_end >= i
            &&& w->Match_end == v->Match_end + (j - i)
            &&& same_rest(a, v->Match_end, b, w->Match_end)
            &&& v->nodes == x + tail
            &&& w->nodes == y + moved(tail, j - i)
        }),
    decreases d, p, 1 + a.len() - i,
{
    let k = j - i;
    lemma_rest(a, i, b, j, 0);
    let v = run_more(p, a, i, x, f, token, gql, d);
    let w = run_more(p, b, j, y, g, token, gql, e);
    if i < a.len() {
        lemma_shift_blanks(a, i, b, j);
        lemma_blank_end(a, i);
        let from = next_part(a, i, token);
        assert(!(run(p, a, from, token, gql, d) is Deep));
        lemma_shift(p, a, from, b, from + k, token, gql, d, e);
        let there = run(p, b, from + k, token, gql, e);
        if let Step::Match { end, nodes, far } = run(p, a, from, token, gql, d) {
            if i < end <= a.len() {
                let f2 = larger(f, far);
                let g2 = larger(g, there->Match_far);
                lemma_shift_more(
                    p,
                    a,
                    end,
                    x + nodes,
                    f2,
                    b,
                    end + k,
                    y + there->nodes,
                    g2,
                    token,
                    gql,
                    d,
                    e,
                );
                let rest = v->nodes.skip((x + nodes).len() as int);
                assert(v->nodes =~= x + (nodes + rest));
                assert(v->nodes.skip(x.len() as int) =~= nodes + rest);
                lemma_moved_join(nodes, rest, k);
                assert(w->nodes =~= y + moved(nodes + rest, k));
            } else {
                assert(v->nodes.skip(x.len() as int) =~= seq![]);
                assert(moved(seq![], k) =~= seq![]);
                assert(v->nodes =~= x + seq![]);
                assert(w->nodes =~= y + seq![]);
            }
        } else {
            assert(v->nodes.skip(x.len() as int) =~= seq![]);
            assert(moved(seq![], k) =~= seq![]);
            assert(v->nodes =~= x + seq![]);
            assert(w->nodes =~= y + seq![]);
        }
    } else {
        assert(v->nodes.skip(x.len() as int) =~= seq![]);
        assert(moved(seq![], k) =~= seq![]);
        assert(v->nodes =~= x + seq![]);
        assert(w->nodes =~= y + seq![]);
    }
}

} // verus!
