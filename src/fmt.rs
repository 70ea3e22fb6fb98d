use vstd::prelude::*;

use crate::config::indent_text;
use crate::config::TreeConfig;
use crate::config::TreeIndentType;
use crate::entry::FsNode;
use crate::error::TreeError;
use crate::filter::filter_entries_by_config;
use crate::filter::rules_opt;
use crate::filter::visible;
use crate::filter::GitignoreFilter;
use crate::sort::ints;
use crate::sort::names_of;
use crate::sort::sort_by_file_name;
use crate::sort::sort_by_name;

verus! {

broadcast use {vstd::std_specs::vec::group_vec_axioms, vstd::seq::group_seq_axioms};

/// How a name is emphasised when colours are on.
#[derive(Clone, Copy, Debug, PartialEq, Eq, Structural)]
pub enum Emphasis {
    /// A directory: bold blue.
    Directory,
    /// A symbolic link: bold cyan.
    Symlink,
    /// A read-only file: bold red.
    ReadOnly,
    /// No emphasis.
    Plain,
}

/// One line of a tree: the indentation and connector, then the name.
#[derive(Debug)]
pub struct TreeLine {
    /// The indentation pieces and the connector, joined.
    pub prefix: String,
    /// The entry's name.
    pub name: String,
    /// How the name is emphasised.
    pub emphasis: Emphasis,
}

impl View for TreeLine {
    type V = (Seq<char>, Seq<char>, Emphasis);

    open spec fn view(&self) -> (Seq<char>, Seq<char>, Emphasis) {
        (self.prefix@, self.name@, self.emphasis)
    }
}

/// The views of a sequence of lines.
pub open spec fn lines_view(v: Seq<TreeLine>) -> Seq<(Seq<char>, Seq<char>, Emphasis)> {
    v.map_values(|l: TreeLine| l@)
}

/// The pieces of an indentation, joined.
pub open spec fn concat_all(s: Seq<Seq<char>>) -> Seq<char>
    decreases s.len(),
{
    if s.len() == 0 {
        Seq::empty()
    } else {
        concat_all(s.drop_last()) + s.last()
    }
}

/// The emphasis of an entry's name, or the metadata error met finding it:
/// the permissions are consulted only for a file that is neither a directory
/// nor a symbolic link, and only with colours on.
pub open spec fn emphasis_of(n: FsNode, c: TreeConfig) -> Result<Emphasis, TreeError> {
    if !c.with_color {
        Ok(Emphasis::Plain)
    } else if n.is_dir {
        Ok(Emphasis::Directory)
    } else if n.is_symlink {
        Ok(Emphasis::Symlink)
    } else {
        match n.readonly {
            Err(e) => Err(e),
            Ok(ro) => Ok(if ro {
                Emphasis::ReadOnly
            } else {
                Emphasis::Plain
            }),
        }
    }
}

/// The level below `depth`, kept within the machine's integers.
pub open spec fn next_depth(depth: int) -> int {
    if depth < usize::MAX {
        depth + 1
    } else {
        depth
    }
}

/// The indentation under which a directory's children are drawn: the
/// directory's own connector becomes a blank (it was the last sibling) or a
/// vertical bar (it was not).
pub open spec fn parent_indent(c: TreeConfig, indent: Seq<Seq<char>>, last: bool) -> Seq<Seq<char>> {
    if indent.len() > 0 {
        indent.drop_last().push(
            indent_text(
                c.ascii_only,
                if last {
                    TreeIndentType::Space
                } else {
                    TreeIndentType::Vertical
                },
            ),
        )
    } else {
        indent
    }
}

/// The connector drawn before a child.
pub open spec fn child_connector(c: TreeConfig, is_last: bool) -> Seq<char> {
    indent_text(
        c.ascii_only,
        if is_last {
            TreeIndentType::Last
        } else {
            TreeIndentType::Continue
        },
    )
}

/// The order in which the visible entries `vis` of `items` are shown.
pub open spec fn order_of(items: Seq<FsNode>, c: TreeConfig, vis: Seq<int>) -> Seq<int> {
    if c.sort {
        sort_by_name(names_of(items), vis)
    } else {
        vis
    }
}

/// Whether entries at level `depth` are shown: those below the depth limit
/// are not, and the root (level 1) always is.
pub open spec fn level_shown(c: TreeConfig, depth: int) -> bool {
    !(c.max_depth is Some && depth > c.max_depth->Some_0 && depth > 1)
}

/// The indentation left after showing entry `n`: a directory that was shown
/// has its own connector turned into what its children were drawn below;
/// anything else leaves the indentation as it was.
pub open spec fn indent_after(
    n: FsNode,
    c: TreeConfig,
    depth: int,
    indent: Seq<Seq<char>>,
    last: bool,
) -> Seq<Seq<char>> {
    if level_shown(c, depth) && emphasis_of(n, c) is Ok && n.is_dir {
        parent_indent(c, indent, last)
    } else {
        indent
    }
}

/// Whether entries at level `depth` are shown under `config`.
pub fn is_level_shown(config: &TreeConfig, depth: usize) -> (r: bool)
    ensures
        r == level_shown(*config, depth as int),
{
    match config.max_depth {
        Some(max_depth) => depth <= max_depth || depth <= 1,
        None => true,
    }
}

/// The lines that showing entry `n` at level `depth`, below `indent`, gives,
/// and the error that stops the walk, if any. `last` tells whether `n` is the
/// last shown child of its directory. Entries below the depth limit are not
/// shown; the root (level 1) always is.
pub open spec fn walk(
    n: FsNode,
    c: TreeConfig,
    rules: Option<Seq<Seq<char>>>,
    depth: int,
    indent: Seq<Seq<char>>,
    last: bool,
) -> (Seq<(Seq<char>, Seq<char>, Emphasis)>, Option<TreeError>)
    decreases n, 0int, 0int,
{
    if !level_shown(c, depth) {
        (Seq::empty(), None)
    } else {
        match emphasis_of(n, c) {
            Err(e) => (Seq::empty(), Some(e)),
            Ok(em) => {
                let line = (concat_all(indent), n.name@, em);
                if !n.is_dir {
                    (seq![line], None)
                } else {
                    match n.children {
                        Err(e) => (seq![line], Some(e)),
                        Ok(items) => match visible(items@, c, rules) {
                            Err(e) => (seq![line], Some(e)),
                            Ok(vis) => {
                                let r = walk_children(
                                    items@,
                                    order_of(items@, c, vis),
                                    0,
                                    c,
                                    rules,
                                    next_depth(depth),
                                    parent_indent(c, indent, last),
                                );
                                (seq![line] + r.0, r.1)
                            },
                        },
                    }
                }
            },
        }
    }
}

/// The lines of the children `items[order[k]]`, `items[order[k + 1]]`, ...,
/// each below `indent` and its own connector, up to the first error.
pub open spec fn walk_children(
    items: Seq<FsNode>,
    order: Seq<int>,
    k: int,
    c: TreeConfig,
    rules: Option<Seq<Seq<char>>>,
    depth: int,
    indent: Seq<Seq<char>>,
) -> (Seq<(Seq<char>, Seq<char>, Emphasis)>, Option<TreeError>)
    decreases items, 1int, order.len() - k,
{
    if k < 0 || k >= order.len() || !(0 <= order[k] < items.len()) {
        (Seq::empty(), None)
    } else {
        let is_last = k == order.len() - 1;
        let first = walk(
            items[order[k]],
            c,
            rules,
            depth,
            indent.push(child_connector(c, is_last)),
            is_last,
        );
        if first.1 is Some {
            first
        } else {
            let rest = walk_children(items, order, k + 1, c, rules, depth, indent);
            (first.0 + rest.0, rest.1)
        }
    }
}


/// The state threaded through a walk: the indentation pieces of the current
/// line, whether the entry being shown is its directory's last shown child,
/// and the current level.
pub struct TreeTraversalState<'a> {
    indent_symbols: Vec<&'static str>,
    is_last_item: bool,
    current_depth: usize,
    config: &'a TreeConfig,
    gitignore_filter: Option<&'a GitignoreFilter>,
}

impl<'a> TreeTraversalState<'a> {
    /// The indentation pieces, outermost first.
    pub closed spec fn indents(&self) -> Seq<Seq<char>> {
        self.indent_symbols@.map_values(|s: &'static str| s@)
    }

    /// Whether the entry being shown is the last shown child of its directory.
    pub closed spec fn is_last(&self) -> bool {
        self.is_last_item
    }

    /// The current level; the root is level 1.
    pub closed spec fn depth(&self) -> int {
        self.current_depth as int
    }

    /// The configuration of the walk.
    pub closed spec fn config_view(&self) -> TreeConfig {
        *self.config
    }

    /// The ignore rules of the walk, if any.
    pub closed spec fn rules(&self) -> Option<Seq<Seq<char>>> {
        rules_opt(self.gitignore_filter)
    }

    /// The state at the root of a walk: no indentation, level 1.
    pub fn new(config: &'a TreeConfig, gitignore_filter: Option<&'a GitignoreFilter>) -> (r: Self)
        ensures
            r.indents() == Seq::<Seq<char>>::empty(),
            r.is_last(),
            r.depth() == 1,
            r.config_view() == *config,
            r.rules() == rules_opt(gitignore_filter),
    {
        let r = TreeTraversalState {
            indent_symbols: Vec::new(),
            is_last_item: true,
            current_depth: 1,
            config,
            gitignore_filter,
        };
        assert(r.indents() =~= Seq::<Seq<char>>::empty());
        r
    }

    /// Turns the connector of the directory about to be entered into what its
    /// children are drawn below.
    pub fn prepare_parent_indent(&mut self)
        ensures
            final(self).indents() == parent_indent(
                old(self).config_view(),
                old(self).indents(),
                old(self).is_last(),
            ),
            final(self).is_last() == old(self).is_last(),
            final(self).depth() == old(self).depth(),
            final(self).config_view() == old(self).config_view(),
            final(self).rules() == old(self).rules(),
    {
        if !self.indent_symbols.is_empty() {
            self.indent_symbols.pop();
            let piece = if self.is_last_item {
                self.config.get_indent(TreeIndentType::Space)
            } else {
                self.config.get_indent(TreeIndentType::Vertical)
            };
            self.indent_symbols.push(piece);
            assert(self.indents() =~= parent_indent(
                old(self).config_view(),
                old(self).indents(),
                old(self).is_last(),
            ));
        }
    }

    /// Adds the connector of the next child; `is_last_item` tells whether it
    /// is the last shown one.
    pub fn add_child_indent(&mut self, is_last_item: bool)
        ensures
            final(self).indents() == old(self).indents().push(
                child_connector(old(self).config_view(), is_last_item),
            ),
            final(self).is_last() == is_last_item,
            final(self).depth() == old(self).depth(),
            final(self).config_view() == old(self).config_view(),
            final(self).rules() == old(self).rules(),
    {
        self.is_last_item = is_last_item;
        let piece = if is_last_item {
            self.config.get_indent(TreeIndentType::Last)
        } else {
            self.config.get_indent(TreeIndentType::Continue)
        };
        self.indent_symbols.push(piece);
        assert(self.indents() =~= old(self).indents().push(
            child_connector(old(self).config_view(), is_last_item),
        ));
    }

    /// Removes the innermost indentation piece.
    pub fn remove_indent(&mut self)
        ensures
            old(self).indents().len() > 0 ==> final(self).indents() == old(self).indents().drop_last(),
            old(self).indents().len() == 0 ==> final(self).indents() == old(self).indents(),
            final(self).is_last() == old(self).is_last(),
            final(self).depth() == old(self).depth(),
            final(self).config_view() == old(self).config_view(),
            final(self).rules() == old(self).rules(),
    {
        self.indent_symbols.pop();
        assert(old(self).indents().len() > 0 ==> self.indents() =~= old(self).indents().drop_last());
    }

    /// The indentation pieces of the current line, joined.
    pub fn current_indent(&self) -> (r: String)
        ensures
            r@ == concat_all(self.indents()),
    {
        let mut r = String::new();
        let mut k: usize = 0;
        while k < self.indent_symbols.len()
            invariant
                k <= self.indent_symbols@.len(),
                r@ == concat_all(self.indents().take(k as int)),
            decreases self.indent_symbols@.len() - k,
        {
            assert(self.indents().take(k + 1).drop_last() =~= self.indents().take(k as int));
            r.append(self.indent_symbols[k]);
            k = k + 1;
        }
        assert(self.indents().take(k as int) =~= self.indents());
        r
    }
}

/// Adds the line of `node` under the current indentation, or fails with the
/// metadata error met finding its emphasis.
fn print_path_name<'b>(node: &'b FsNode, state: &TreeTraversalState, out: &mut Vec<TreeLine>) -> (r:
    Result<(), &'b TreeError>)
    ensures
        match emphasis_of(*node, state.config_view()) {
            Ok(em) => r is Ok && lines_view(final(out)@) == lines_view(old(out)@).push(
                (concat_all(state.indents()), node.name@, em),
            ),
            Err(e) => r is Err && *r->Err_0 == e && final(out)@ == old(out)@,
        },
{
    let emphasis = if !state.config.with_color {
        Emphasis::Plain
    } else if node.is_dir {
        Emphasis::Directory
    } else if node.is_symlink {
        Emphasis::Symlink
    } else {
        match &node.readonly {
            Err(e) => {
                return Err(e);
            },
            Ok(ro) => if *ro {
                Emphasis::ReadOnly
            } else {
                Emphasis::Plain
            },
        }
    };
    let line = TreeLine { prefix: state.current_indent(), name: node.name.clone(), emphasis };
    out.push(line);
    assert(lines_view(out@) =~= lines_view(old(out)@).push(
        (concat_all(state.indents()), node.name@, emphasis),
    ));
    Ok(())
}

/// The lines of a whole tree rooted at `root`, and the error that stops the
/// walk, if any.
pub open spec fn show_tree(root: FsNode, c: TreeConfig, rules: Option<Seq<Seq<char>>>) -> (
    Seq<(Seq<char>, Seq<char>, Emphasis)>,
    Option<TreeError>,
) {
    walk(root, c, rules, 1, Seq::empty(), true)
}

/// Adds the lines of `node` and of what lies below it, depth first; stops at
/// the first error. On success the level is restored and the indentation
/// keeps its length and all but its innermost piece.
fn print_tree_recursive<'b>(
    node: &'b FsNode,
    state: &mut TreeTraversalState,
    out: &mut Vec<TreeLine>,
) -> (r: Result<(), &'b TreeError>)
    ensures
        ({
            let w = walk(
                *node,
                old(state).config_view(),
                old(state).rules(),
                old(state).depth(),
                old(state).indents(),
                old(state).is_last(),
            );
            &&& lines_view(final(out)@) == lines_view(old(out)@) + w.0
            &&& match w.1 {
                None => r is Ok,
                Some(e) => r is Err && *r->Err_0 == e,
            }
        }),
        final(state).depth() == old(state).depth(),
        final(state).is_last() == old(state).is_last(),
        final(state).config_view() == old(state).config_view(),
        final(state).rules() == old(state).rules(),
        final(state).indents() == indent_after(
            *node,
            old(state).config_view(),
            old(state).depth(),
            old(state).indents(),
            old(state).is_last(),
        ),
    decreases node,
{
    let ghost c = state.config_view();
    let ghost rules = state.rules();
    let ghost depth = state.depth();
    let ghost indent = state.indents();
    let ghost last = state.is_last();
    if !is_level_shown(state.config, state.current_depth) {
        assert(lines_view(out@) =~= lines_view(old(out)@) + Seq::empty());
        return Ok(());
    }
    match print_path_name(node, state, out) {
        Err(e) => {
            assert(lines_view(out@) =~= lines_view(old(out)@) + Seq::empty());
            return Err(e);
        },
        Ok(()) => {},
    }
    if !node.is_dir {
        return Ok(());
    }
    let saved_depth = state.current_depth;
    let saved_last = state.is_last_item;
    if state.current_depth < usize::MAX {
        state.current_depth = state.current_depth + 1;
    }
    state.prepare_parent_indent();
    let items = match &node.children {
        Ok(v) => v,
        Err(e) => {
            state.current_depth = saved_depth;
            return Err(e);
        },
    };
    let config = state.config;
    let filter = state.gitignore_filter;
    let vis = match filter_entries_by_config(items, config, filter) {
        Ok(v) => v,
        Err(e) => {
            state.current_depth = saved_depth;
            return Err(e);
        },
    };
    assert(forall|m: int| 0 <= m < vis@.len() ==> vis@[m] < items@.len()) by {
        lemma_visible_in_range(items@, c, rules, 0);
        assert forall|m: int| 0 <= m < vis@.len() implies vis@[m] < items@.len() by {
            assert(ints(vis@)[m] == vis@[m] as int);
        }
    }
    let order = if config.sort {
        sort_by_file_name(items, &vis)
    } else {
        vis
    };
    let ghost ord = ints(order@);
    assert(ord == order_of(items@, c, ints(vis@)));
    let ghost base = lines_view(out@);
    let ghost inner = state.indents();
    let ghost d1 = state.depth();
    assert(d1 == next_depth(depth));
    assert(inner == parent_indent(c, indent, last));
    let ghost mut acc: Seq<(Seq<char>, Seq<char>, Emphasis)> = Seq::empty();
    let ghost line = (concat_all(indent), node.name@, emphasis_of(*node, c)->Ok_0);
    let ghost w = walk(*node, c, rules, depth, indent, last);
    assert(base == lines_view(old(out)@).push(line));
    assert(w.0 == seq![line] + walk_children(items@, ord, 0, c, rules, d1, inner).0);
    assert(w.1 == walk_children(items@, ord, 0, c, rules, d1, inner).1);
    let n = order.len();
    let mut k: usize = 0;
    while k < n
        invariant
            n == order@.len(),
            ord == ints(order@),
            k <= n,
            forall|m: int| 0 <= m < order@.len() ==> order@[m] < items@.len(),
            state.indents() == inner,
            state.depth() == d1,
            saved_depth == depth,
            saved_last == last,
            inner == parent_indent(c, indent, last),
            emphasis_of(*node, c) is Ok,
            level_shown(c, depth),
            node.is_dir,
            state.config_view() == c,
            state.rules() == rules,
            lines_view(out@) == base + acc,
            node.children is Ok && node.children->Ok_0 == *items,
            base == lines_view(old(out)@).push(line),
            w == walk(*node, c, rules, depth, indent, last),
            c == old(state).config_view(),
            rules == old(state).rules(),
            depth == old(state).depth(),
            indent == old(state).indents(),
            last == old(state).is_last(),
            w.0 == seq![line] + walk_children(items@, ord, 0, c, rules, d1, inner).0,
            w.1 == walk_children(items@, ord, 0, c, rules, d1, inner).1,
            ({
                let w0 = walk_children(items@, ord, 0, c, rules, d1, inner);
                let wk = walk_children(items@, ord, k as int, c, rules, d1, inner);
                &&& w0.1 == wk.1
                &&& w0.0 == acc + wk.0
                &&& (w0.1 is None ==> wk.1 is None)
            }),
        decreases n - k,
    {
        let is_last = k == n - 1;
        state.add_child_indent(is_last);
        let child = &items[order[k]];
        assert(ord[k as int] == order@[k as int] as int);
        proof {
            let j = ord[k as int];
            assert(node.children is Ok && node.children->Ok_0 == *items);
            assert(decreases_to!(*node => node.children));
            assert(decreases_to!(node.children => node.children->Ok_0));
            assert(decreases_to!(*items => items@));
            assert(decreases_to!(items@ => items@[j]));
            assert(decreases_to!(*node => *child));
        }
        let ghost before = lines_view(out@);
        let res = print_tree_recursive(child, state, out);
        let ghost wc = walk(*child, c, rules, d1, inner.push(child_connector(c, is_last)), is_last);
        match res {
            Err(e) => {
                proof {
                    assert(walk_children(items@, ord, k as int, c, rules, d1, inner) == wc);
                    assert(lines_view(out@) =~= base + (acc + wc.0));
                    assert(w.0 =~= seq![line] + (acc + wc.0));
                    assert(lines_view(out@) =~= lines_view(old(out)@) + w.0);
                    assert(state.indents().drop_last() =~= inner);
                }
                state.remove_indent();
                state.current_depth = saved_depth;
                state.is_last_item = saved_last;
                return Err(e);
            },
            Ok(()) => {},
        }
        proof {
            assert(state.indents().drop_last() =~= inner);
            assert(base + acc + wc.0 =~= base + (acc + wc.0));
            acc = acc + wc.0;
        }
        state.remove_indent();
        k = k + 1;
        proof {
            let wk1 = walk_children(items@, ord, k as int, c, rules, d1, inner);
            assert(walk_children(items@, ord, 0, c, rules, d1, inner).0 =~= acc + wk1.0);
        }
    }
    state.current_depth = saved_depth;
    state.is_last_item = saved_last;
    assert(lines_view(out@) =~= lines_view(old(out)@) + (seq![line] + acc));
    Ok(())
}

/// Every position that the entry filter keeps lies within the listing.
proof fn lemma_visible_in_range(
    items: Seq<FsNode>,
    c: TreeConfig,
    rules: Option<Seq<Seq<char>>>,
    k: int,
)
    requires
        0 <= k,
    ensures
        crate::filter::visible_from(items, c, rules, k) is Ok ==> forall|m: int|
            0 <= m < crate::filter::visible_from(items, c, rules, k)->Ok_0.len() ==> k <= (
            #[trigger] crate::filter::visible_from(items, c, rules, k)->Ok_0[m]) < items.len(),
    decreases items.len() - k,
{
    if k < items.len() {
        lemma_visible_in_range(items, c, rules, k + 1);
    }
}

/// Shows the tree rooted at `root`: its lines, and the first error met, if
/// any. The rules of `gitignore_filter` exclude entries only where
/// `config.ignore_gitignore` asks for it.
pub fn print_tree_with_config<'b>(
    root: &'b FsNode,
    config: &TreeConfig,
    gitignore_filter: Option<&GitignoreFilter>,
) -> (r: (Vec<TreeLine>, Result<(), &'b TreeError>))
    ensures
        ({
            let rules = if config.ignore_gitignore {
                rules_opt(gitignore_filter)
            } else {
                None
            };
            let w = show_tree(*root, *config, rules);
            &&& lines_view(r.0@) == w.0
            &&& match w.1 {
                None => r.1 is Ok,
                Some(e) => r.1 is Err && *r.1->Err_0 == e,
            }
        }),
{
    let filter = if config.ignore_gitignore {
        gitignore_filter
    } else {
        None
    };
    let mut state = TreeTraversalState::new(config, filter);
    let mut out: Vec<TreeLine> = Vec::new();
    let res = print_tree_recursive(root, &mut state, &mut out);
    assert(lines_view(out@) =~= Seq::empty() + lines_view(out@));
    (out, res)
}

} // verus!
