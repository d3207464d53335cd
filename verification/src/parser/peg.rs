//! Parsing expressions, and their matching against a text.
use vstd::prelude::*;

use crate::parser::grammar::rule_body;
#[allow(unused_imports)]
use crate::parser::grammar::{body_of, is_token, keeps_case};
use crate::parser::grammar::{is_case_kept, is_token_rule};
use crate::parser::tree::{see_from, Node, Rule};
#[allow(unused_imports)]
use crate::parser::tree::{seen_from, tree_of, trees_of, Tree};
use crate::text::{chars_of, is_white_char, slice_text, to_ascii_lowercase};
#[allow(unused_imports)]
use crate::text::{is_white, lower, lower_text};

verus! {

/// Classes of characters.
#[derive(Clone, Copy, Debug, PartialEq, Eq, Structural)]
pub enum Class {
    /// What a name can begin with.
    NameStart,
    /// What a name can go on with.
    NamePart,
    Digit,
    HexDigit,
    OctalDigit,
    /// What a string in double quotes holds as it is.
    InDoubleQuotes,
    /// What a string in single quotes holds as it is.
    InSingleQuotes,
    /// What a name in backticks holds.
    InTicks,
    Any,
}

/// A parsing expression.
pub enum Peg {
    /// The text, in any case of its letters.
    Word(&'static str),
    /// One character.
    One(Class),
    /// What a rule describes.
    Call(Rule),
    /// One behind the other.
    Then(Box<Peg>, Box<Peg>),
    /// The first; where that fails, the second.
    Or(Box<Peg>, Box<Peg>),
    /// As many as there are, none included.
    Many(Box<Peg>),
    /// That, or nothing.
    Maybe(Box<Peg>),
    /// Nothing, where that does not match.
    Not(Box<Peg>),
    Nothing,
    /// The end of the text.
    End,
}

// ── Characters ───────────────────────────────────────────────────────────────

pub open spec fn is_name_start(c: char) -> bool {
    'a' <= c <= 'z' || 'A' <= c <= 'Z' || c == '_' || (c >= '\u{80}' && !is_white(c))
}

pub open spec fn is_decimal(c: char) -> bool {
    '0' <= c <= '9'
}

pub open spec fn in_class(c: char, k: Class) -> bool {
    match k {
        Class::NameStart => is_name_start(c),
        Class::NamePart => is_name_start(c) || is_decimal(c),
        Class::Digit => is_decimal(c),
        Class::HexDigit => is_decimal(c) || 'a' <= c <= 'f' || 'A' <= c <= 'F',
        Class::OctalDigit => '0' <= c <= '7',
        Class::InDoubleQuotes => c != '"' && c != '\\',
        Class::InSingleQuotes => c != '\'' && c != '\\',
        Class::InTicks => c != '`',
        Class::Any => true,
    }
}

fn name_start(c: char) -> (r: bool)
    ensures
        r == is_name_start(c),
{
    ('a' <= c && c <= 'z') || ('A' <= c && c <= 'Z') || c == '_' || (c >= '\u{80}'
        && !is_white_char(c))
}

fn has_class(c: char, k: Class) -> (r: bool)
    ensures
        r == in_class(c, k),
{
    match k {
        Class::NameStart => name_start(c),
        Class::NamePart => name_start(c) || ('0' <= c && c <= '9'),
        Class::Digit => '0' <= c && c <= '9',
        Class::HexDigit => ('0' <= c && c <= '9') || ('a' <= c && c <= 'f') || ('A' <= c && c
            <= 'F'),
        Class::OctalDigit => '0' <= c && c <= '7',
        Class::InDoubleQuotes => c != '"' && c != '\\',
        Class::InSingleQuotes => c != '\'' && c != '\\',
        Class::InTicks => c != '`',
        Class::Any => true,
    }
}

/// Whether the word stands at a position, in any case.
pub open spec fn word_at(s: Seq<char>, w: Seq<char>, i: int) -> bool {
    0 <= i && i + w.len() <= s.len() && forall|k: int|
        0 <= k < w.len() ==> lower(#[trigger] w[k]) == lower(s[i + k])
}

fn lower_char(c: char) -> (r: char)
    ensures
        r == lower(c),
{
    if 'A' <= c && c <= 'Z' {
        (c as u8 + 32) as char
    } else {
        c
    }
}

fn is_word_at(s: &Vec<char>, w: &Vec<char>, i: usize) -> (r: bool)
    requires
        i <= s@.len(),
    ensures
        r == word_at(s@, w@, i as int),
{
    let n: usize = s.len();
    if w.len() > n - i {
        return false;
    }
    let mut k: usize = 0;
    while k < w.len()
        invariant
            n == s@.len(),
            i + w@.len() <= n,
            k <= w@.len(),
            forall|j: int| 0 <= j < k ==> lower(#[trigger] w@[j]) == lower(s@[i + j]),
        decreases w@.len() - k,
    {
        if lower_char(w[k]) != lower_char(s[i + k]) {
            assert(lower(w@[k as int]) != lower(s@[i + k]));
            return false;
        }
        k = k + 1;
    }
    true
}

// ── Blanks ───────────────────────────────────────────────────────────────────

/// The position of the end of the line.
pub open spec fn line_end(s: Seq<char>, i: int) -> int
    decreases s.len() - i,
{
    if i >= s.len() || s[i] == '\n' {
        i
    } else {
        line_end(s, i + 1)
    }
}

/// The position behind the next `*/`; -1 where there is none.
pub open spec fn comment_end(s: Seq<char>, i: int) -> int
    decreases s.len() - i,
{
    if i + 2 > s.len() {
        -1
    } else if s[i] == '*' && s[i + 1] == '/' {
        i + 2
    } else {
        comment_end(s, i + 1)
    }
}

/// The position behind white space and comments.
pub open spec fn blank_end(s: Seq<char>, i: int) -> int
    decreases s.len() - i,
{
    if i < 0 || i >= s.len() {
        i
    } else if is_white(s[i]) {
        blank_end(s, i + 1)
    } else if i + 1 < s.len() && s[i] == '/' && s[i + 1] == '/' {
        let e = line_end(s, i + 2);
        if i < e <= s.len() {
            blank_end(s, e)
        } else {
            i
        }
    } else if i + 1 < s.len() && s[i] == '/' && s[i + 1] == '*' {
        let e = comment_end(s, i + 2);
        if i < e <= s.len() {
            blank_end(s, e)
        } else {
            i
        }
    } else {
        i
    }
}

fn skip_line(s: &Vec<char>, from: usize) -> (e: usize)
    requires
        from <= s@.len(),
    ensures
        e == line_end(s@, from as int),
        from <= e <= s@.len(),
{
    let mut i: usize = from;
    while i < s.len() && s[i] != '\n'
        invariant
            from <= i <= s@.len(),
            line_end(s@, from as int) == line_end(s@, i as int),
        decreases s@.len() - i,
    {
        i = i + 1;
    }
    i
}

fn skip_comment(s: &Vec<char>, from: usize) -> (e: Option<usize>)
    requires
        from <= s@.len(),
    ensures
        match e {
            Some(k) => comment_end(s@, from as int) == k && from < k <= s@.len(),
            None => comment_end(s@, from as int) == -1,
        },
{
    let n: usize = s.len();
    let mut i: usize = from;
    while n - i >= 2
        invariant
            n == s@.len(),
            from <= i <= n,
            comment_end(s@, from as int) == comment_end(s@, i as int),
        decreases n - i,
    {
        if s[i] == '*' && s[i + 1] == '/' {
            return Some(i + 2);
        }
        i = i + 1;
    }
    None
}

fn skip_blanks(s: &Vec<char>, from: usize) -> (e: usize)
    requires
        from <= s@.len(),
    ensures
        e == blank_end(s@, from as int),
        from <= e <= s@.len(),
{
    let n: usize = s.len();
    let mut i: usize = from;
    while i < n
        invariant
            n == s@.len(),
            from <= i <= n,
            blank_end(s@, from as int) == blank_end(s@, i as int),
        decreases n - i,
    {
        if is_white_char(s[i]) {
            i = i + 1;
        } else if n - i >= 2 && s[i] == '/' && s[i + 1] == '/' {
            i = skip_line(s, i + 2);
        } else if n - i >= 2 && s[i] == '/' && s[i + 1] == '*' {
            match skip_comment(s, i + 2) {
                Some(k) => {
                    i = k;
                },
                None => {
                    return i;
                },
            }
        } else {
            return i;
        }
    }
    i
}

// ── Matching ─────────────────────────────────────────────────────────────────

/// How many rules can be nested at one position of a text: more than there are.
pub const RULES: usize = 256;

/// How many rules can be nested in a text: at each of its positions, and at its
/// end.
pub open spec fn depth_for(len: nat) -> nat {
    if (len + 1) * RULES <= usize::MAX {
        (len + 1) * RULES as nat
    } else {
        usize::MAX as nat
    }
}

pub fn find_depth(len: usize) -> (r: usize)
    ensures
        r == depth_for(len as nat),
{
    if len < usize::MAX / RULES {
        (len + 1) * RULES
    } else {
        usize::MAX
    }
}

/// What matching gives. `far` is the furthest position at which something else
/// was looked for.
#[allow(inconsistent_fields)]
pub enum Step {
    Fail { far: int },
    /// The rules are nested too deeply.
    Deep,
    Match { end: int, nodes: Seq<Tree>, far: int },
}

pub open spec fn larger(a: int, b: int) -> int {
    if a < b {
        b
    } else {
        a
    }
}

/// `step`, after something that looked as far as `far`.
pub open spec fn reaching(step: Step, f: int) -> Step {
    match step {
        Step::Fail { far } => Step::Fail { far: larger(f, far) },
        Step::Deep => Step::Deep,
        Step::Match { end, nodes, far } => Step::Match { end, nodes, far: larger(f, far) },
    }
}

/// `step`, with nodes in front of its own.
pub open spec fn following(step: Step, first: Seq<Tree>, f: int) -> Step {
    match step {
        Step::Fail { far } => Step::Fail { far: larger(f, far) },
        Step::Deep => Step::Deep,
        Step::Match { end, nodes, far } => Step::Match {
            end,
            nodes: first + nodes,
            far: larger(f, far),
        },
    }
}

pub open spec fn terminal(matched: bool, i: int, end: int) -> Step {
    if matched {
        Step::Match { end, nodes: seq![], far: 0 }
    } else {
        Step::Fail { far: i }
    }
}

/// Where the next part of a sequence is looked for. Between the parts of a
/// token there are no blanks.
pub open spec fn next_part(s: Seq<char>, end: int, token: bool) -> int {
    if token {
        end
    } else {
        blank_end(s, end)
    }
}

/// The text of a node.
pub open spec fn spelled(r: Rule, text: Seq<char>) -> Seq<char> {
    if keeps_case(r) {
        text
    } else {
        lower_text(text)
    }
}

/// What the expression matches at a position.
pub open spec fn run(p: Peg, s: Seq<char>, i: int, token: bool, gql: bool, depth: nat) -> Step
    decreases depth, p, 0int,
{
    match p {
        Peg::Word(t) => terminal(word_at(s, t@, i), i, i + t@.len()),
        Peg::One(k) => terminal(0 <= i < s.len() && in_class(s[i], k), i, i + 1),
        Peg::Nothing => Step::Match { end: i, nodes: seq![], far: 0 },
        Peg::End => terminal(i >= s.len(), i, i),
        Peg::Call(r) => if depth == 0 {
            Step::Deep
        } else {
            match run(body_of(r, gql), s, i, token || is_token(r), gql, (depth - 1) as nat) {
                Step::Match { end, nodes, far } => Step::Match {
                    end,
                    nodes: seq![
                        Tree {
                            rule: r,
                            text: spelled(r, s.subrange(i, end)),
                            start: i,
                            children: if is_token(r) {
                                seq![]
                            } else {
                                seen_from(nodes, i)
                            },
                        },
                    ],
                    far,
                },
                other => other,
            }
        },
        Peg::Then(a, b) => match run(*a, s, i, token, gql, depth) {
            Step::Match { end, nodes, far } => following(
                run(*b, s, next_part(s, end, token), token, gql, depth),
                nodes,
                far,
            ),
            other => other,
        },
        Peg::Or(a, b) => match run(*a, s, i, token, gql, depth) {
            Step::Fail { far } => reaching(run(*b, s, i, token, gql, depth), far),
            other => other,
        },
        Peg::Maybe(a) => match run(*a, s, i, token, gql, depth) {
            Step::Fail { far } => Step::Match { end: i, nodes: seq![], far },
            other => other,
        },
        Peg::Not(a) => match run(*a, s, i, token, gql, depth) {
            Step::Fail { far } => Step::Match { end: i, nodes: seq![], far: 0 },
            Step::Deep => Step::Deep,
            Step::Match { end, nodes, far } => Step::Fail { far: i },
        },
        Peg::Many(a) => match run(*a, s, i, token, gql, depth) {
            Step::Fail { far } => Step::Match { end: i, nodes: seq![], far },
            Step::Deep => Step::Deep,
            Step::Match { end, nodes, far } => run_more(*a, s, end, nodes, far, token, gql, depth),
        },
    }
}

/// The repetition of an expression that has matched up to `end`, with what it
/// gave so far. It stops where nothing more matches.
pub open spec fn run_more(
    p: Peg,
    s: Seq<char>,
    end: int,
    done: Seq<Tree>,
    f: int,
    token: bool,
    gql: bool,
    depth: nat,
) -> Step
    decreases depth, p, 1 + s.len() - end,
{
    if end < 0 || end >= s.len() {
        Step::Match { end, nodes: done, far: f }
    } else {
        match run(p, s, next_part(s, end, token), token, gql, depth) {
            Step::Fail { far } => Step::Match { end, nodes: done, far: larger(f, far) },
            Step::Deep => Step::Deep,
            Step::Match { end: e, nodes, far } => if e <= end || e > s.len() {
                Step::Match { end, nodes: done, far: larger(f, far) }
            } else {
                run_more(p, s, e, done + nodes, larger(f, far), token, gql, depth)
            },
        }
    }
}

#[allow(inconsistent_fields)]
pub enum Outcome {
    Fail { far: usize },
    Deep,
    Match { end: usize, nodes: Vec<Node>, far: usize },
}

pub open spec fn step_of(o: Outcome) -> Step {
    match o {
        Outcome::Fail { far } => Step::Fail { far: far as int },
        Outcome::Deep => Step::Deep,
        Outcome::Match { end, nodes, far } => Step::Match {
            end: end as int,
            nodes: trees_of(nodes@),
            far: far as int,
        },
    }
}

/// Whether a match lies between a position and the end of the text.
pub open spec fn ends_within(o: Outcome, i: int, len: nat) -> bool {
    o matches Outcome::Match { end, nodes, .. } ==> i <= end <= len && start_from(nodes@, i)
}

pub open spec fn start_from(nodes: Seq<Node>, i: int) -> bool {
    forall|k: int| 0 <= k < nodes.len() ==> i <= (#[trigger] nodes[k]).start
}

proof fn lemma_trees_add(a: Seq<Node>, b: Seq<Node>)
    ensures
        trees_of(a + b) == trees_of(a) + trees_of(b),
{
    assert(trees_of(a + b) =~= trees_of(a) + trees_of(b));
}

fn max(a: usize, b: usize) -> (r: usize)
    ensures
        r == larger(a as int, b as int),
{
    if a < b {
        b
    } else {
        a
    }
}

fn no_nodes() -> (v: Vec<Node>)
    ensures
        v@.len() == 0,
        trees_of(v@) == Seq::<Tree>::empty(),
{
    let v: Vec<Node> = Vec::new();
    assert(trees_of(v@) =~= Seq::<Tree>::empty());
    v
}

fn run_terminal(matched: bool, i: usize, end: usize) -> (o: Outcome)
    ensures
        step_of(o) == terminal(matched, i as int, end as int),
        o matches Outcome::Match { end: e, nodes, .. } ==> e == end && matched && nodes@.len() == 0,
{
    if matched {
        Outcome::Match { end, nodes: no_nodes(), far: 0 }
    } else {
        Outcome::Fail { far: i }
    }
}

fn run_word(t: &str, s: &Vec<char>, i: usize) -> (o: Outcome)
    requires
        i <= s@.len(),
    ensures
        step_of(o) == terminal(word_at(s@, t@, i as int), i as int, i + t@.len()),
        ends_within(o, i as int, s@.len()),
{
    let w = chars_of(t);
    let n: usize = s.len();
    if w.len() <= n - i && is_word_at(s, &w, i) {
        run_terminal(true, i, i + w.len())
    } else {
        run_terminal(false, i, i)
    }
}

fn spell(r: Rule, text: String) -> (t: String)
    ensures
        t@ == spelled(r, text@),
{
    if is_case_kept(r) {
        text
    } else {
        to_ascii_lowercase(text.as_str())
    }
}

fn run_call(p: &Peg, s: &Vec<char>, i: usize, token: bool, gql: bool, depth: usize) -> (o: Outcome)
    requires
        i <= s@.len(),
        *p is Call,
    ensures
        step_of(o) == run(*p, s@, i as int, token, gql, depth as nat),
        ends_within(o, i as int, s@.len()),
    decreases depth, *p, 0int,
{
    let r = match p {
        Peg::Call(r) => *r,
        _ => {
            return Outcome::Deep;
        },
    };
    if depth == 0 {
        return Outcome::Deep;
    }
    let body = rule_body(r, gql);
    let plain = is_token_rule(r);
    match run_peg(&body, s, i, token || plain, gql, depth - 1) {
        Outcome::Match { end, nodes, far } => {
            let children = if plain {
                no_nodes()
            } else {
                see_from(nodes, i)
            };
            let node = Node { rule: r, text: spell(r, slice_text(s, i, end)), start: i, children };
            let mut v: Vec<Node> = Vec::new();
            v.push(node);
            assert(trees_of(v@) =~= seq![tree_of(node)]);
            Outcome::Match { end, nodes: v, far }
        },
        other => other,
    }
}

fn run_then(p: &Peg, s: &Vec<char>, i: usize, token: bool, gql: bool, depth: usize) -> (o: Outcome)
    requires
        i <= s@.len(),
        *p is Then,
    ensures
        step_of(o) == run(*p, s@, i as int, token, gql, depth as nat),
        ends_within(o, i as int, s@.len()),
    decreases depth, *p, 0int,
{
    let (a, b) = match p {
        Peg::Then(a, b) => (a, b),
        _ => {
            return Outcome::Deep;
        },
    };
    match run_peg(a, s, i, token, gql, depth) {
        Outcome::Match { end, nodes, far } => {
            let j: usize = if token {
                end
            } else {
                skip_blanks(s, end)
            };
            match run_peg(b, s, j, token, gql, depth) {
                Outcome::Fail { far: g } => Outcome::Fail { far: max(far, g) },
                Outcome::Deep => Outcome::Deep,
                Outcome::Match { end: e, nodes: more, far: g } => {
                    let mut all = nodes;
                    let mut more = more;
                    proof {
                        lemma_trees_add(all@, more@);
                    }
                    all.append(&mut more);
                    Outcome::Match { end: e, nodes: all, far: max(far, g) }
                },
            }
        },
        other => other,
    }
}

fn run_or(p: &Peg, s: &Vec<char>, i: usize, token: bool, gql: bool, depth: usize) -> (o: Outcome)
    requires
        i <= s@.len(),
        *p is Or,
    ensures
        step_of(o) == run(*p, s@, i as int, token, gql, depth as nat),
        ends_within(o, i as int, s@.len()),
    decreases depth, *p, 0int,
{
    let (a, b) = match p {
        Peg::Or(a, b) => (a, b),
        _ => {
            return Outcome::Deep;
        },
    };
    match run_peg(a, s, i, token, gql, depth) {
        Outcome::Fail { far } => match run_peg(b, s, i, token, gql, depth) {
            Outcome::Fail { far: g } => Outcome::Fail { far: max(far, g) },
            Outcome::Deep => Outcome::Deep,
            Outcome::Match { end, nodes, far: g } => Outcome::Match {
                end,
                nodes,
                far: max(far, g),
            },
        },
        other => other,
    }
}

fn run_many(p: &Peg, s: &Vec<char>, i: usize, token: bool, gql: bool, depth: usize) -> (o: Outcome)
    requires
        i <= s@.len(),
        *p is Many,
    ensures
        step_of(o) == run(*p, s@, i as int, token, gql, depth as nat),
        ends_within(o, i as int, s@.len()),
    decreases depth, *p, 0int,
{
    let a = match p {
        Peg::Many(a) => a,
        _ => {
            return Outcome::Deep;
        },
    };
    match run_peg(a, s, i, token, gql, depth) {
        Outcome::Fail { far } => Outcome::Match { end: i, nodes: no_nodes(), far },
        Outcome::Deep => Outcome::Deep,
        Outcome::Match { end, nodes, far } => {
            let mut end: usize = end;
            let mut nodes = nodes;
            let mut far: usize = far;
            let ghost whole = run(*p, s@, i as int, token, gql, depth as nat);
            while end < s.len()
                invariant
                    i <= end <= s@.len(),
                    start_from(nodes@, i as int),
                    whole == run_more(
                        **a,
                        s@,
                        end as int,
                        trees_of(nodes@),
                        far as int,
                        token,
                        gql,
                        depth as nat,
                    ),
                    whole == run(*p, s@, i as int, token, gql, depth as nat),
                    *p == Peg::Many(*a),
                decreases s@.len() - end,
            {
                let j: usize = if token {
                    end
                } else {
                    skip_blanks(s, end)
                };
                match run_peg(a, s, j, token, gql, depth) {
                    Outcome::Fail { far: g } => {
                        return Outcome::Match { end, nodes, far: max(far, g) };
                    },
                    Outcome::Deep => {
                        return Outcome::Deep;
                    },
                    Outcome::Match { end: e, nodes: more, far: g } => {
                        if e <= end {
                            return Outcome::Match { end, nodes, far: max(far, g) };
                        }
                        let mut more = more;
                        proof {
                            lemma_trees_add(nodes@, more@);
                        }
                        nodes.append(&mut more);
                        end = e;
                        far = max(far, g);
                    },
                }
            }
            Outcome::Match { end, nodes, far }
        },
    }
}

/// What the expression matches at a position.
pub fn run_peg(p: &Peg, s: &Vec<char>, i: usize, token: bool, gql: bool, depth: usize) -> (o:
    Outcome)
    requires
        i <= s@.len(),
    ensures
        step_of(o) == run(*p, s@, i as int, token, gql, depth as nat),
        ends_within(o, i as int, s@.len()),
    decreases depth, *p, 1int,
{
    match p {
        Peg::Word(t) => run_word(t, s, i),
        Peg::One(k) => {
            if i < s.len() && has_class(s[i], *k) {
                run_terminal(true, i, i + 1)
            } else {
                run_terminal(false, i, i)
            }
        },
        Peg::Nothing => Outcome::Match { end: i, nodes: no_nodes(), far: 0 },
        Peg::End => run_terminal(i >= s.len(), i, i),
        Peg::Call(_) => run_call(p, s, i, token, gql, depth),
        Peg::Then(_, _) => run_then(p, s, i, token, gql, depth),
        Peg::Or(_, _) => run_or(p, s, i, token, gql, depth),
        Peg::Maybe(a) => match run_peg(a, s, i, token, gql, depth) {
            Outcome::Fail { far } => Outcome::Match { end: i, nodes: no_nodes(), far },
            other => other,
        },
        Peg::Not(a) => match run_peg(a, s, i, token, gql, depth) {
            Outcome::Fail { far: _ } => Outcome::Match { end: i, nodes: no_nodes(), far: 0 },
            Outcome::Deep => Outcome::Deep,
            Outcome::Match { end: _, nodes: _, far: _ } => Outcome::Fail { far: i },
        },
        Peg::Many(_) => run_many(p, s, i, token, gql, depth),
    }
}

} // verus!
