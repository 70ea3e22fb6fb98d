use vstd::prelude::*;

use crate::config::TreeConfig;
use crate::entry::FsNode;
use crate::error::TreeError;
use crate::filter::rules_opt;
use crate::filter::GitignoreFilter;
use crate::fmt::lines_view;
use crate::fmt::print_tree_with_config;
use crate::fmt::show_tree;
use crate::fmt::TreeLine;

verus! {

/// The options of a tree command.
#[derive(Clone, Debug)]
pub struct TreeArgs {
    /// The directory to show.
    pub path: String,
    /// Show hidden entries.
    pub all: bool,
    /// The deepest level shown.
    pub level: Option<usize>,
    /// Show directories only.
    pub directories_only: bool,
    /// Do not emphasise names.
    pub no_color: bool,
    /// Draw connectors with ASCII characters only.
    pub ascii: bool,
    /// Keep the order in which the system lists entries.
    pub no_sorting: bool,
    /// Do not exclude the entries that `.gitignore` names.
    pub show_gitignore: bool,
}

/// The configuration that options ask for.
pub open spec fn config_of(args: TreeArgs) -> TreeConfig {
    TreeConfig {
        max_depth: args.level,
        show_hidden: args.all,
        dirs_only: args.directories_only,
        with_color: !args.no_color,
        ascii_only: args.ascii,
        sort: !args.no_sorting,
        ignore_gitignore: !args.show_gitignore,
    }
}

impl TreeArgs {
    /// The configuration that these options ask for.
    pub fn to_config(&self) -> (r: TreeConfig)
        ensures
            r == config_of(*self),
    {
        TreeConfig {
            max_depth: self.level,
            show_hidden: self.all,
            dirs_only: self.directories_only,
            with_color: !self.no_color,
            ascii_only: self.ascii,
            sort: !self.no_sorting,
            ignore_gitignore: !self.show_gitignore,
        }
    }
}

/// Shows the tree rooted at `root` as `args` ask: its lines, and the first
/// error met, if any. `gitignore_filter` holds the rules of the root's
/// `.gitignore`, where it has one.
pub fn run_tree_command<'b>(
    args: &TreeArgs,
    root: &'b FsNode,
    gitignore_filter: Option<&GitignoreFilter>,
) -> (r: (Vec<TreeLine>, Result<(), &'b TreeError>))
    ensures
        ({
            let c = config_of(*args);
            let rules = if c.ignore_gitignore {
                rules_opt(gitignore_filter)
            } else {
                None
            };
            let w = show_tree(*root, c, rules);
            &&& lines_view(r.0@) == w.0
            &&& match w.1 {
                None => r.1 is Ok,
                Some(e) => r.1 is Err && *r.1->Err_0 == e,
            }
        }),
{
    let config = args.to_config();
    print_tree_with_config(root, &config, gitignore_filter)
}

} // verus!
