use vstd::prelude::*;

verus! {

/// How a tree is walked and shown. Fixed for the whole walk.
#[derive(Clone, Copy, Debug)]
pub struct TreeConfig {
    /// The deepest level shown, the root being level 1.
    pub max_depth: Option<usize>,
    /// Whether entries whose name starts with `.` are shown.
    pub show_hidden: bool,
    /// Whether only directories are shown.
    pub dirs_only: bool,
    /// Whether names are emphasised by kind.
    pub with_color: bool,
    /// Whether the connectors are drawn with ASCII characters only.
    pub ascii_only: bool,
    /// Whether siblings are ordered by name.
    pub sort: bool,
    /// Whether the root's `.gitignore` rules exclude entries.
    pub ignore_gitignore: bool,
}

/// The four pieces that a line's indentation is made of.
#[derive(Clone, Copy, Debug, PartialEq, Eq, Structural)]
pub enum TreeIndentType {
    /// Below the last child of an ancestor.
    Space,
    /// Below a child of an ancestor that has later siblings.
    Vertical,
    /// The connector of a last child.
    Last,
    /// The connector of a child with later siblings.
    Continue,
}

/// The text of an indentation piece.
pub open spec fn indent_text(ascii_only: bool, t: TreeIndentType) -> Seq<char> {
    match t {
        TreeIndentType::Space => seq![' ', ' ', ' ', ' '],
        TreeIndentType::Vertical => if ascii_only {
            seq!['|', ' ', ' ', ' ']
        } else {
            seq!['\u{2502}', ' ', ' ', ' ']
        },
        TreeIndentType::Last => if ascii_only {
            seq!['`', '-', '-', ' ']
        } else {
            seq!['\u{2514}', '\u{2500}', '\u{2500}', ' ']
        },
        TreeIndentType::Continue => if ascii_only {
            seq!['|', '-', '-', ' ']
        } else {
            seq!['\u{251c}', '\u{2500}', '\u{2500}', ' ']
        },
    }
}

impl TreeConfig {
    /// The text of the indentation piece `indent_type` under this configuration.
    pub fn get_indent(&self, indent_type: TreeIndentType) -> (r: &'static str)
        ensures
            r@ == indent_text(self.ascii_only, indent_type),
    {
        match indent_type {
            TreeIndentType::Space => self.get_indent_space(),
            TreeIndentType::Vertical => self.get_indent_vertical(),
            TreeIndentType::Last => self.get_indent_last(),
            TreeIndentType::Continue => self.get_indent_continue(),
        }
    }

    fn get_indent_space(&self) -> (r: &'static str)
        ensures
            r@ == indent_text(self.ascii_only, TreeIndentType::Space),
    {
        proof {
            reveal_strlit("    ");
        }
        "    "
    }

    fn get_indent_vertical(&self) -> (r: &'static str)
        ensures
            r@ == indent_text(self.ascii_only, TreeIndentType::Vertical),
    {
        proof {
            reveal_strlit("|   ");
            reveal_strlit("\u{2502}   ");
        }
        if self.ascii_only {
            "|   "
        } else {
            "\u{2502}   "
        }
    }

    fn get_indent_last(&self) -> (r: &'static str)
        ensures
            r@ == indent_text(self.ascii_only, TreeIndentType::Last),
    {
        proof {
            reveal_strlit("`-- ");
            reveal_strlit("\u{2514}\u{2500}\u{2500} ");
        }
        if self.ascii_only {
            "`-- "
        } else {
            "\u{2514}\u{2500}\u{2500} "
        }
    }

    fn get_indent_continue(&self) -> (r: &'static str)
        ensures
            r@ == indent_text(self.ascii_only, TreeIndentType::Continue),
    {
        proof {
            reveal_strlit("|-- ");
            reveal_strlit("\u{251c}\u{2500}\u{2500} ");
        }
        if self.ascii_only {
            "|-- "
        } else {
            "\u{251c}\u{2500}\u{2500} "
        }
    }
}

} // verus!
