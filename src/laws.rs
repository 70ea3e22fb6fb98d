use vstd::prelude::*;

use crate::config::TreeConfig;
use crate::entry::FsNode;
use crate::filter::file_name;
use crate::filter::ignored_by;
use crate::filter::rule_applies;
use crate::filter::visible_from;
use crate::error::TreeError;
use crate::fmt::emphasis_of;
use crate::fmt::show_tree;
use crate::fmt::walk;
use crate::fmt::walk_children;
use crate::fmt::Emphasis;
use crate::glob::glob_from;
use crate::glob::glob_matches;
use crate::glob::lemma_star;
use crate::glob::lemma_star_free_prefix;
use crate::glob::lemma_text_end;
use crate::glob::literal_run;

verus! {

/// The empty pattern matches the empty text and nothing else.
pub proof fn empty_pattern_matches_only_empty(t: Seq<char>)
    ensures
        glob_matches(t, Seq::empty()) <==> t.len() == 0,
{
}

/// A lone `*` matches every text.
pub proof fn star_matches_everything(t: Seq<char>)
    ensures
        glob_matches(t, seq!['*']),
{
    let p = seq!['*'];
    lemma_star(t, p, 0, 0);
    lemma_text_end(t, p, 1);
    assert(0 <= t.len() <= t.len() && glob_from(t, p, t.len() as int, 1));
}

/// A lone `?` matches exactly the texts of one character.
pub proof fn question_mark_matches_one_char(t: Seq<char>)
    ensures
        glob_matches(t, seq!['?']) <==> t.len() == 1,
{
    let p = seq!['?'];
    if t.len() > 0 {
        assert(glob_from(t, p, 1, 1) <==> t.len() == 1);
    }
}

/// A pattern without `*` and `?` matches exactly the text equal to it.
pub proof fn literal_pattern_matches_itself_only(t: Seq<char>, p: Seq<char>)
    requires
        forall|k: int| 0 <= k < p.len() ==> p[k] != '*' && p[k] != '?',
    ensures
        glob_matches(t, p) <==> t == p,
{
    lemma_star_free_prefix(t, p, 0, 0, p.len() as int);
    if glob_matches(t, p) {
        assert(literal_run(t, p, 0, 0, p.len() as int));
        assert(t.len() == p.len());
        assert(t =~= p);
    }
    if t == p {
        assert(literal_run(t, p, 0, 0, p.len() as int));
    }
}

/// A rule that ends with `/` (and is more than `/`) excludes directories only.
pub proof fn dir_rule_excludes_only_directories(rule: Seq<char>, name: Seq<char>, is_dir: bool)
    requires
        rule.len() >= 2,
        rule.last() == '/',
    ensures
        rule_applies(rule, name, is_dir) ==> is_dir,
{
    if rule[0] == '/' {
        assert(rule.drop_first().last() == '/');
    }
}

/// A rule without `/` at either end excludes files and directories alike.
pub proof fn plain_rule_ignores_kind(rule: Seq<char>, name: Seq<char>)
    requires
        rule.len() > 0 ==> rule[0] != '/' && rule.last() != '/',
    ensures
        rule_applies(rule, name, true) == rule_applies(rule, name, false),
{
}

/// Whether an entry is excluded depends on its path through its final name
/// only: the directory it lies in does not matter.
pub proof fn exclusion_depends_on_file_name_only(
    rules: Seq<Seq<char>>,
    path_a: Seq<char>,
    path_b: Seq<char>,
    is_dir: bool,
)
    requires
        file_name(path_a) == file_name(path_b),
    ensures
        ignored_by(rules, path_a, is_dir) == ignored_by(rules, path_b, is_dir),
{
}

/// A path without a final name (`/`, `..`, the empty path) is never
/// excluded, whatever the rules.
pub proof fn nameless_path_never_excluded(rules: Seq<Seq<char>>, path: Seq<char>, is_dir: bool)
    requires
        file_name(path) is None,
    ensures
        !ignored_by(rules, path, is_dir),
{
}

/// The rule `build/` excludes exactly the directories named `build`.
pub proof fn build_dir_rule(name: Seq<char>, is_dir: bool)
    ensures
        rule_applies(seq!['b', 'u', 'i', 'l', 'd', '/'], name, is_dir) <==> (is_dir && name
            == seq!['b', 'u', 'i', 'l', 'd']),
{
    let rule = seq!['b', 'u', 'i', 'l', 'd', '/'];
    let body = seq!['b', 'u', 'i', 'l', 'd'];
    assert(rule.drop_last() =~= body);
    literal_pattern_matches_itself_only(name, body);
}

/// Children below the depth limit add no lines and no error.
proof fn lemma_children_beyond_limit(
    items: Seq<FsNode>,
    order: Seq<int>,
    k: int,
    c: TreeConfig,
    rules: Option<Seq<Seq<char>>>,
    depth: int,
    indent: Seq<Seq<char>>,
)
    requires
        c.max_depth is Some,
        depth > c.max_depth->Some_0,
        depth > 1,
    ensures
        walk_children(items, order, k, c, rules, depth, indent) == (
            Seq::<(Seq<char>, Seq<char>, Emphasis)>::empty(),
            Option::<crate::error::TreeError>::None,
        ),
    decreases order.len() - k,
{
    if 0 <= k < order.len() && 0 <= order[k] < items.len() {
        lemma_children_beyond_limit(items, order, k + 1, c, rules, depth, indent);
        let is_last = k == order.len() - 1;
        let first = walk(
            items[order[k]],
            c,
            rules,
            depth,
            indent.push(crate::fmt::child_connector(c, is_last)),
            is_last,
        );
        assert(first.0 + Seq::<(Seq<char>, Seq<char>, Emphasis)>::empty() =~= first.0);
    }
}

/// With the depth limited to 1 (or 0), a tree shows its root's line and
/// nothing else.
pub proof fn depth_one_shows_root_only(root: FsNode, c: TreeConfig, rules: Option<Seq<Seq<char>>>)
    requires
        c.max_depth is Some,
        c.max_depth->Some_0 <= 1,
    ensures
        show_tree(root, c, rules).0 == (match emphasis_of(root, c) {
            Ok(em) => seq![(Seq::<char>::empty(), root.name@, em)],
            Err(_) => Seq::empty(),
        }),
        show_tree(root, c, rules).1 == (match emphasis_of(root, c) {
            Err(e) => Some(e),
            Ok(_) => if !root.is_dir {
                None
            } else {
                match root.children {
                    Err(e) => Some(e),
                    Ok(items) => match crate::filter::visible(items@, c, rules) {
                        Err(e) => Some(e),
                        Ok(_) => None,
                    },
                }
            },
        }),
{
    if root.is_dir && emphasis_of(root, c) is Ok && root.children is Ok {
        let items = root.children->Ok_0@;
        if let Ok(vis) = crate::filter::visible(items, c, rules) {
            lemma_children_beyond_limit(
                items,
                crate::fmt::order_of(items, c, vis),
                0,
                c,
                rules,
                2,
                crate::fmt::parent_indent(c, Seq::empty(), true),
            );
        }
    }
    let line = (crate::fmt::concat_all(Seq::empty()), root.name@, emphasis_of(root, c)->Ok_0);
    assert(seq![line] + Seq::<(Seq<char>, Seq<char>, Emphasis)>::empty() =~= seq![line]);
}

/// Showing a tree is a function of the tree and the configuration: the same
/// unchanged tree shows the same lines and the same error every time.
pub proof fn showing_is_repeatable(
    r1: FsNode,
    r2: FsNode,
    c: TreeConfig,
    rules: Option<Seq<Seq<char>>>,
)
    requires
        r1 == r2,
    ensures
        show_tree(r1, c, rules) == show_tree(r2, c, rules),
{
}

/// A plain file named `name` whose facts are all readable.
pub open spec fn plain_file(n: FsNode, name: Seq<char>) -> bool {
    &&& n.name@ == name
    &&& n.file_type == Ok::<bool, crate::error::TreeError>(false)
    &&& !n.is_dir
    &&& !n.is_symlink
    &&& n.readonly == Ok::<bool, crate::error::TreeError>(false)
}

/// The name `x.txt` for a letter `x`.
pub open spec fn txt(x: char) -> Seq<char> {
    seq![x, '.', 't', 'x', 't']
}

/// A plain configuration: everything shown, no colours, ASCII connectors.
pub open spec fn plain_config(c: TreeConfig) -> bool {
    &&& c.max_depth is None
    &&& !c.dirs_only
    &&& !c.with_color
    &&& c.ascii_only
}

/// A directory listed as `b.txt`, `a.txt`, `c.txt` shows them by name when
/// sorting is on, and in the listed order when it is off.
pub proof fn sorting_orders_children(root: FsNode, c: TreeConfig)
    requires
        plain_config(c),
        root.is_dir,
        root.children is Ok,
        root.children->Ok_0@.len() == 3,
        plain_file(root.children->Ok_0@[0], txt('b')),
        plain_file(root.children->Ok_0@[1], txt('a')),
        plain_file(root.children->Ok_0@[2], txt('c')),
    ensures
        ({
            let cont = crate::config::indent_text(true, crate::config::TreeIndentType::Continue);
            let last = crate::config::indent_text(true, crate::config::TreeIndentType::Last);
            let root_line = (Seq::<char>::empty(), root.name@, Emphasis::Plain);
            &&& show_tree(root, c, None).1 is None
            &&& c.sort ==> show_tree(root, c, None).0 == seq![
                root_line,
                (cont, txt('a'), Emphasis::Plain),
                (cont, txt('b'), Emphasis::Plain),
                (last, txt('c'), Emphasis::Plain),
            ]
            &&& !c.sort ==> show_tree(root, c, None).0 == seq![
                root_line,
                (cont, txt('b'), Emphasis::Plain),
                (cont, txt('a'), Emphasis::Plain),
                (last, txt('c'), Emphasis::Plain),
            ]
        }),
{
    let items = root.children->Ok_0@;
    let cont = crate::config::indent_text(true, crate::config::TreeIndentType::Continue);
    let last = crate::config::indent_text(true, crate::config::TreeIndentType::Last);
    lemma_three_files_visible(items, c);
    let names = crate::sort::names_of(items);
    assert(names[0] == txt('b') && names[1] == txt('a') && names[2] == txt('c'));
    let vis = seq![0int, 1, 2];
    let sorted = seq![1int, 0, 2];
    if c.sort {
        assert(!crate::sort::name_le(txt('b'), txt('a')));
        assert(crate::sort::name_le(txt('b'), txt('c')));
        assert(vis.drop_last().drop_last().drop_last() =~= Seq::<int>::empty());
        assert(vis.drop_last().drop_last() =~= seq![0int]);
        assert(vis.drop_last() =~= seq![0int, 1]);
        assert(seq![0int].drop_last() =~= Seq::<int>::empty());
        assert(crate::sort::sort_by_name(names, Seq::<int>::empty()) == Seq::<int>::empty());
        assert(crate::sort::insert_by_name(names, Seq::<int>::empty(), 0) == seq![0int]);
        assert(crate::sort::sort_by_name(names, seq![0int]) == seq![0int]);
        assert(crate::sort::insert_by_name(names, Seq::<int>::empty(), 1) == seq![1int]);
        assert(seq![1int].push(0) =~= seq![1int, 0]);
        assert(crate::sort::insert_by_name(names, seq![0int], 1) == seq![1int, 0]);
        assert(crate::sort::sort_by_name(names, seq![0int, 1]) =~= seq![1int, 0]);
        assert(crate::sort::sort_by_name(names, vis) =~= sorted);
        lemma_three_leaves(items, sorted, c);
    } else {
        lemma_three_leaves(items, vis, c);
    }
    assert(crate::fmt::parent_indent(c, Seq::empty(), true) =~= Seq::<Seq<char>>::empty());
    assert(crate::fmt::concat_all(Seq::<Seq<char>>::empty()) =~= Seq::<char>::empty());
}

proof fn lemma_three_files_visible(items: Seq<FsNode>, c: TreeConfig)
    requires
        plain_config(c),
        items.len() == 3,
        plain_file(items[0], txt('b')),
        plain_file(items[1], txt('a')),
        plain_file(items[2], txt('c')),
    ensures
        crate::filter::visible(items, c, None) == Ok::<Seq<int>, crate::error::TreeError>(
            seq![0int, 1, 2],
        ),
{
    assert(visible_from(items, c, None, 3) == Ok::<Seq<int>, crate::error::TreeError>(Seq::empty()));
    assert(visible_from(items, c, None, 2) == Ok::<Seq<int>, crate::error::TreeError>(seq![2int])) by {
        assert(seq![2int] + Seq::<int>::empty() =~= seq![2int]);
    }
    assert(visible_from(items, c, None, 1) == Ok::<Seq<int>, crate::error::TreeError>(seq![1int, 2])) by {
        assert(seq![1int] + seq![2int] =~= seq![1int, 2]);
    }
    assert(visible_from(items, c, None, 0) == Ok::<Seq<int>, crate::error::TreeError>(seq![0int, 1, 2])) by {
        assert(seq![0int] + seq![1int, 2] =~= seq![0int, 1, 2]);
    }
}

/// Three plain files shown in the order `order`, as children of a root.
proof fn lemma_three_leaves(items: Seq<FsNode>, order: Seq<int>, c: TreeConfig)
    requires
        plain_config(c),
        items.len() == 3,
        order.len() == 3,
        forall|k: int| 0 <= k < 3 ==> 0 <= #[trigger] order[k] < 3,
        forall|j: int| 0 <= j < 3 ==> !(#[trigger] items[j]).is_dir,
    ensures
        ({
            let cont = crate::config::indent_text(true, crate::config::TreeIndentType::Continue);
            let last = crate::config::indent_text(true, crate::config::TreeIndentType::Last);
            walk_children(items, order, 0, c, None, 2, Seq::empty()) == (
                seq![
                    (cont, items[order[0]].name@, Emphasis::Plain),
                    (cont, items[order[1]].name@, Emphasis::Plain),
                    (last, items[order[2]].name@, Emphasis::Plain),
                ],
                Option::<crate::error::TreeError>::None,
            )
        }),
{
    let cont = crate::config::indent_text(true, crate::config::TreeIndentType::Continue);
    let last = crate::config::indent_text(true, crate::config::TreeIndentType::Last);
    let e = Seq::<Seq<char>>::empty();
    assert(e.push(cont).drop_last() =~= e);
    assert(e.push(last).drop_last() =~= e);
    assert(crate::fmt::concat_all(e) == Seq::<char>::empty());
    assert(Seq::<char>::empty() + cont =~= cont);
    assert(Seq::<char>::empty() + last =~= last);
    assert(crate::fmt::concat_all(e.push(cont)) == cont);
    assert(crate::fmt::concat_all(e.push(last)) == last);
    let l0 = (cont, items[order[0]].name@, Emphasis::Plain);
    let l1 = (cont, items[order[1]].name@, Emphasis::Plain);
    let l2 = (last, items[order[2]].name@, Emphasis::Plain);
    assert(walk(items[order[2]], c, None, 2, e.push(last), true) == (seq![l2], Option::<crate::error::TreeError>::None));
    assert(walk(items[order[1]], c, None, 2, e.push(cont), false) == (seq![l1], Option::<crate::error::TreeError>::None));
    assert(walk(items[order[0]], c, None, 2, e.push(cont), false) == (seq![l0], Option::<crate::error::TreeError>::None));
    assert(walk_children(items, order, 3, c, None, 2, e).0 =~= Seq::empty());
    assert(walk_children(items, order, 2, c, None, 2, e).0 =~= seq![l2]);
    assert(walk_children(items, order, 1, c, None, 2, e).0 =~= seq![l1, l2]);
    assert(walk_children(items, order, 0, c, None, 2, e).0 =~= seq![l0, l1, l2]);
}

/// The root `root/` holding `sub/` (which holds `x.txt`) and `y.txt`, listed
/// as `y.txt`, `sub`, shows four lines under the default configuration: the
/// root, `sub` with a continuing connector, `x.txt` below it with a last
/// connector, and `y.txt` with a last connector.
pub proof fn root_with_sub_and_file(root: FsNode, c: TreeConfig)
    requires
        c.max_depth is None,
        !c.dirs_only,
        !c.with_color,
        c.sort,
        root.is_dir,
        root.children is Ok,
        root.children->Ok_0@.len() == 2,
        plain_file(root.children->Ok_0@[0], txt('y')),
        ({
            let sub = root.children->Ok_0@[1];
            &&& sub.name@ == seq!['s', 'u', 'b']
            &&& sub.file_type == Ok::<bool, crate::error::TreeError>(true)
            &&& sub.is_dir
            &&& sub.children is Ok
            &&& sub.children->Ok_0@.len() == 1
            &&& plain_file(sub.children->Ok_0@[0], txt('x'))
        }),
    ensures
        ({
            let g = |t: crate::config::TreeIndentType| crate::config::indent_text(c.ascii_only, t);
            show_tree(root, c, None) == (
                seq![
                    (Seq::<char>::empty(), root.name@, Emphasis::Plain),
                    (g(crate::config::TreeIndentType::Continue), seq!['s', 'u', 'b'], Emphasis::Plain),
                    (
                        g(crate::config::TreeIndentType::Vertical) + g(
                            crate::config::TreeIndentType::Last,
                        ),
                        txt('x'),
                        Emphasis::Plain,
                    ),
                    (g(crate::config::TreeIndentType::Last), txt('y'), Emphasis::Plain),
                ],
                Option::<crate::error::TreeError>::None,
            )
        }),
{
    let cont = crate::config::indent_text(c.ascii_only, crate::config::TreeIndentType::Continue);
    let vert = crate::config::indent_text(c.ascii_only, crate::config::TreeIndentType::Vertical);
    let lastg = crate::config::indent_text(c.ascii_only, crate::config::TreeIndentType::Last);
    let items = root.children->Ok_0@;
    let y = items[0];
    let sub = items[1];
    let xs = sub.children->Ok_0@;
    let x = xs[0];
    let sub_name = seq!['s', 'u', 'b'];
    let e = Seq::<Seq<char>>::empty();
    assert(visible_from(items, c, None, 2) == Ok::<Seq<int>, TreeError>(Seq::empty()));
    assert(visible_from(items, c, None, 1) == Ok::<Seq<int>, TreeError>(seq![1int])) by {
        assert(seq![1int] + Seq::<int>::empty() =~= seq![1int]);
    }
    assert(visible_from(items, c, None, 0) == Ok::<Seq<int>, TreeError>(seq![0int, 1])) by {
        assert(seq![0int] + seq![1int] =~= seq![0int, 1]);
    }
    assert(visible_from(xs, c, None, 1) == Ok::<Seq<int>, TreeError>(Seq::empty()));
    assert(visible_from(xs, c, None, 0) == Ok::<Seq<int>, TreeError>(seq![0int])) by {
        assert(seq![0int] + Seq::<int>::empty() =~= seq![0int]);
    }
    let names = crate::sort::names_of(items);
    assert(names[0] == txt('y') && names[1] == sub_name);
    assert(!crate::sort::name_le(txt('y'), sub_name));
    assert(seq![0int].drop_last() =~= Seq::<int>::empty());
    assert(seq![0int, 1].drop_last() =~= seq![0int]);
    assert(crate::sort::sort_by_name(names, Seq::<int>::empty()) == Seq::<int>::empty());
    assert(crate::sort::insert_by_name(names, Seq::<int>::empty(), 0) == seq![0int]);
    assert(crate::sort::sort_by_name(names, seq![0int]) == seq![0int]);
    assert(crate::sort::insert_by_name(names, Seq::<int>::empty(), 1) == seq![1int]);
    assert(seq![1int].push(0) =~= seq![1int, 0]);
    assert(crate::sort::sort_by_name(names, seq![0int, 1]) == seq![1int, 0]);
    let xnames = crate::sort::names_of(xs);
    assert(crate::sort::sort_by_name(xnames, Seq::<int>::empty()) == Seq::<int>::empty());
    assert(crate::sort::insert_by_name(xnames, Seq::<int>::empty(), 0) == seq![0int]);
    assert(crate::sort::sort_by_name(xnames, seq![0int]) == seq![0int]);
    assert(crate::fmt::concat_all(e) == Seq::<char>::empty());
    assert(e.push(cont).drop_last() =~= e);
    assert(e.push(lastg).drop_last() =~= e);
    assert(Seq::<char>::empty() + cont =~= cont);
    assert(Seq::<char>::empty() + lastg =~= lastg);
    assert(crate::fmt::concat_all(e.push(cont)) == cont);
    assert(crate::fmt::concat_all(e.push(lastg)) == lastg);
    let inner = crate::fmt::parent_indent(c, e.push(cont), false);
    assert(inner =~= e.push(vert));
    assert(e.push(vert).push(lastg).drop_last() =~= e.push(vert));
    assert(e.push(vert).drop_last() =~= e);
    assert(Seq::<char>::empty() + vert =~= vert);
    assert(crate::fmt::concat_all(e.push(vert)) == vert);
    assert(crate::fmt::concat_all(e.push(vert).push(lastg)) == vert + lastg);
    assert(crate::fmt::parent_indent(c, e, true) =~= e);
    let lx = (vert + lastg, txt('x'), Emphasis::Plain);
    let ls = (cont, sub_name, Emphasis::Plain);
    let ly = (lastg, txt('y'), Emphasis::Plain);
    assert(walk(x, c, None, 3, e.push(vert).push(lastg), true) == (seq![lx], Option::<TreeError>::None));
    assert(walk_children(xs, seq![0int], 1, c, None, 3, e.push(vert)).0 =~= Seq::empty());
    assert(walk_children(xs, seq![0int], 0, c, None, 3, e.push(vert)).0 =~= seq![lx]);
    assert(walk(sub, c, None, 2, e.push(cont), false).0 =~= seq![ls, lx]);
    assert(walk(sub, c, None, 2, e.push(cont), false).1 is None);
    assert(walk(y, c, None, 2, e.push(lastg), true) == (seq![ly], Option::<TreeError>::None));
    let order = seq![1int, 0];
    assert(walk_children(items, order, 2, c, None, 2, e).0 =~= Seq::empty());
    assert(walk_children(items, order, 1, c, None, 2, e).0 =~= seq![ly]);
    assert(walk_children(items, order, 0, c, None, 2, e).0 =~= seq![ls, lx, ly]);
    let root_line = (Seq::<char>::empty(), root.name@, Emphasis::Plain);
    assert(show_tree(root, c, None).0 =~= seq![root_line, ls, lx, ly]);
}

} // verus!
