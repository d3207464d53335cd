//! Parse trees.
use vstd::prelude::*;

verus! {

#[allow(non_camel_case_types)]
#[derive(Clone, Copy, Debug, PartialEq, Eq, Structural)]
pub enum Rule {
    add_sub_expr,
    add_sub_op,
    agg_call_expr,
    agg_func_name,
    aggregate_expr,
    and_expr,
    anonymous_pattern_part,
    atom,
    boolean_literal,
    call_args,
    call_clause,
    call_subquery,
    case_expression,
    case_when,
    chain_link,
    clause,
    colon_type_list,
    comp_op,
    comparison_expr,
    comparison_suffix,
    count_expr,
    count_star,
    create_clause,
    delete_clause,
    detach_marker,
    distinct_marker,
    exists_subquery,
    explicit_items,
    expression,
    filter_clause,
    filter_expression,
    float_literal,
    foreach_clause,
    full_arrow,
    func_name,
    function_call,
    gql_is_labels,
    gql_label_more,
    gql_label_name,
    hex_integer_literal,
    ident,
    ident_escaped,
    integer_literal,
    is_type_list,
    kw_ALL,
    kw_ANY,
    kw_AS,
    kw_ASC,
    kw_ASCENDING,
    kw_BY,
    kw_CALL,
    kw_CASE,
    kw_CONTAINS,
    kw_COUNT,
    kw_CREATE,
    kw_DELETE,
    kw_DESC,
    kw_DESCENDING,
    kw_DETACH,
    kw_DISTINCT,
    kw_ELSE,
    kw_END,
    kw_ENDS,
    kw_EXISTS,
    kw_FILTER,
    kw_FOREACH,
    kw_IN,
    kw_IS,
    kw_LIMIT,
    kw_MATCH,
    kw_MERGE,
    kw_NEXT,
    kw_NONE,
    kw_NOT,
    kw_NULL,
    kw_ON,
    kw_OPTIONAL,
    kw_OR,
    kw_AND,
    kw_XOR,
    kw_ORDER,
    kw_REMOVE,
    kw_RETURN,
    kw_SET,
    kw_SINGLE,
    kw_SKIP,
    kw_STARTS,
    kw_THEN,
    kw_UNION,
    kw_UNWIND,
    kw_WHEN,
    kw_WHERE,
    kw_WITH,
    kw_WITH_kw,
    kw_YIELD,
    label_check,
    left_arrow,
    legacy_parameter,
    limit_clause,
    list_comprehension,
    list_literal,
    map_entry,
    map_literal,
    match_clause,
    match_where,
    merge_action,
    merge_clause,
    mul_div_expr,
    mul_div_op,
    next_clause,
    node_label,
    node_labels,
    node_pattern,
    node_pattern_chain,
    non_arith_expr,
    not_expr,
    null_literal,
    octal_integer_literal,
    optional_marker,
    or_expr,
    order_by_clause,
    parameter,
    pattern,
    pattern_comprehension,
    pattern_element,
    pattern_element_chain,
    pattern_list,
    pattern_predicate,
    power_expr,
    proc_name,
    projection_body,
    prop_access_expr,
    prop_expr,
    prop_name,
    properties,
    property_lookup,
    quantifier_expr,
    query,
    range_literal,
    reduce_expr,
    regex_op,
    rel_body,
    rel_dash,
    rel_pattern,
    rel_type_elem,
    rel_type_list,
    rel_type_spec,
    relationships_pattern,
    remove_clause,
    remove_item,
    return_body,
    reserved_word,
    return_clause,
    return_item,
    return_items,
    right_arrow,
    schema_name,
    set_clause,
    set_item,
    shortest_path_atom,
    shortest_path_pattern,
    single_query,
    skip_clause,
    slice_access,
    sort_direction,
    sort_item,
    star_projection,
    statement,
    string_literal,
    subscript_access,
    unary_expr,
    unary_minus,
    unary_plus,
    union_marker,
    unwind_clause,
    variable,
    where_clause,
    with_clause,
    xor_expr,
    yield_clause,
    yield_item,
    yield_items,
    yield_star,
}

/// A node of a parse tree: the rule that matched, the text that it matched, the
/// position of that text in characters, and the nodes below in order. The text is
/// in lower case where the case of its letters does not matter. The position is
/// that in the text of the node above, where there is one.
#[derive(Debug)]
pub struct Node {
    pub rule: Rule,
    pub text: String,
    pub start: usize,
    pub children: Vec<Node>,
}

/// The model of a node.
pub struct Tree {
    pub rule: Rule,
    pub text: Seq<char>,
    pub start: int,
    pub children: Seq<Tree>,
}

pub open spec fn tree_of(n: Node) -> Tree
    decreases n,
{
    Tree {
        rule: n.rule,
        text: n.text@,
        start: n.start as int,
        children: trees_of(n.children@),
    }
}

pub open spec fn trees_of(s: Seq<Node>) -> Seq<Tree>
    decreases s,
{
    Seq::new(
        s.len(),
        |i: int|
            if 0 <= i < s.len() {
                tree_of(s[i])
            } else {
                arbitrary()
            },
    )
}

/// The nodes, each with its position as seen from `i`.
pub open spec fn seen_from(s: Seq<Tree>, i: int) -> Seq<Tree> {
    Seq::new(s.len(), |k: int| Tree { start: s[k].start - i, ..s[k] })
}

/// The nodes, each with its position as seen from `i`.
pub fn see_from(nodes: Vec<Node>, i: usize) -> (r: Vec<Node>)
    requires
        forall|k: int| 0 <= k < nodes@.len() ==> i <= (#[trigger] nodes@[k]).start,
    ensures
        trees_of(r@) == seen_from(trees_of(nodes@), i as int),
{
    let ghost all = nodes@;
    let mut r = nodes;
    let n: usize = r.len();
    #[verifier::loop_isolation(false)]
    for k in 0..n
        invariant
            r@.len() == n,
            n == all.len(),
            forall|j: int| k <= j < n ==> #[trigger] r@[j] == all[j],
            forall|j: int|
                0 <= j < k ==> #[trigger] r@[j] == (Node {
                    start: (all[j].start - i) as usize,
                    ..all[j]
                }),
    {
        assert(i <= all[k as int].start);
        r[k].start = r[k].start - i;
    }
    assert(trees_of(r@) =~= seen_from(trees_of(all), i as int));
    r
}

/// The position of the first node with the rule, from `i` on; -1 where there is
/// none.
pub open spec fn index_from(s: Seq<Tree>, r: Rule, i: int) -> int
    decreases s.len() - i,
{
    if i < 0 || i >= s.len() {
        -1
    } else if s[i].rule == r {
        i
    } else {
        index_from(s, r, i + 1)
    }
}

/// The position of the first child with the rule; -1 where there is none.
pub open spec fn at(n: Tree, r: Rule) -> int {
    index_from(n.children, r, 0)
}

pub open spec fn holds(n: Tree, i: int) -> bool {
    0 <= i < n.children.len()
}

/// How many children a node has.
pub fn width(n: &Node) -> (r: usize)
    ensures
        r == tree_of(*n).children.len(),
{
    n.children.len()
}

/// The child at a position.
pub fn nth<'a>(n: &'a Node, i: usize) -> (c: &'a Node)
    requires
        i < tree_of(*n).children.len(),
    ensures
        tree_of(*c) == tree_of(*n).children[i as int],
        decreases_to!(*n => *c),
{
    assert(trees_of(n.children@)[i as int] == tree_of(n.children@[i as int]));
    &n.children[i]
}

/// The position of the first child with the rule, from position `from` on.
pub fn position_from(n: &Node, r: Rule, from: usize) -> (p: Option<usize>)
    ensures
        match p {
            Some(i) => index_from(tree_of(*n).children, r, from as int) == i && i < tree_of(
                *n,
            ).children.len(),
            None => index_from(tree_of(*n).children, r, from as int) == -1,
        },
{
    let len: usize = width(n);
    let mut i: usize = from;
    while i < len
        invariant
            len == tree_of(*n).children.len(),
            from <= i,
            index_from(tree_of(*n).children, r, from as int) == index_from(
                tree_of(*n).children,
                r,
                i as int,
            ),
        decreases len - i,
    {
        let c = nth(n, i);
        if c.rule == r {
            return Some(i);
        }
        i = i + 1;
    }
    None
}

/// The first child with the rule, from position `from` on.
pub fn child_from<'a>(n: &'a Node, r: Rule, from: usize) -> (c: Option<&'a Node>)
    ensures
        match c {
            Some(c) => holds(tree_of(*n), index_from(tree_of(*n).children, r, from as int)) && tree_of(
                *c,
            ) == tree_of(*n).children[index_from(tree_of(*n).children, r, from as int)]
                && decreases_to!(*n => *c),
            None => !holds(tree_of(*n), index_from(tree_of(*n).children, r, from as int)),
        },
{
    match position_from(n, r, from) {
        Some(i) => Some(nth(n, i)),
        None => None,
    }
}

/// The first child with the rule.
pub fn child<'a>(n: &'a Node, r: Rule) -> (c: Option<&'a Node>)
    ensures
        match c {
            Some(c) => holds(tree_of(*n), at(tree_of(*n), r)) && tree_of(*c) == tree_of(
                *n,
            ).children[at(tree_of(*n), r)] && decreases_to!(*n => *c),
            None => !holds(tree_of(*n), at(tree_of(*n), r)),
        },
{
    child_from(n, r, 0)
}

/// Whether there is a child with the rule.
pub fn has_child(n: &Node, r: Rule) -> (b: bool)
    ensures
        b == holds(tree_of(*n), at(tree_of(*n), r)),
{
    position_from(n, r, 0).is_some()
}

} // verus!
