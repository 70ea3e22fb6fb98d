use vstd::prelude::*;
use vstd::string::StrSliceExecFns;

use crate::config::TreeConfig;
use crate::entry::FsNode;
use crate::error::TreeError;
use crate::glob::glob_matches;
use crate::glob::wildcard_chars;
use crate::text::chars_of;

verus! {

/// Unicode white space, as `char::is_whitespace` defines it.
pub open spec fn is_space(c: char) -> bool {
    let u = c as u32;
    (0x9 <= u <= 0xd) || u == 0x20 || u == 0x85 || u == 0xa0 || u == 0x1680 || (0x2000 <= u
        <= 0x200a) || u == 0x2028 || u == 0x2029 || u == 0x202f || u == 0x205f || u == 0x3000
}

/// Whether `c` is Unicode white space.
pub fn is_space_char(c: char) -> (r: bool)
    ensures
        r == is_space(c),
{
    let u = c as u32;
    (0x9 <= u && u <= 0xd) || u == 0x20 || u == 0x85 || u == 0xa0 || u == 0x1680 || (0x2000 <= u
        && u <= 0x200a) || u == 0x2028 || u == 0x2029 || u == 0x202f || u == 0x205f || u == 0x3000
}

/// `l` without its leading white space.
pub open spec fn trim_start(l: Seq<char>) -> Seq<char>
    decreases l.len(),
{
    if l.len() > 0 && is_space(l[0]) {
        trim_start(l.drop_first())
    } else {
        l
    }
}

/// `l` without its trailing white space.
pub open spec fn trim_end(l: Seq<char>) -> Seq<char>
    decreases l.len(),
{
    if l.len() > 0 && is_space(l.last()) {
        trim_end(l.drop_last())
    } else {
        l
    }
}

/// `l` without white space at either end.
pub open spec fn trim(l: Seq<char>) -> Seq<char> {
    trim_end(trim_start(l))
}

/// A trimmed line that holds a rule: not blank and not a `#` comment.
pub open spec fn is_rule_line(l: Seq<char>) -> bool {
    l.len() > 0 && l[0] != '#'
}

/// The position of the first line feed at or after `k`, or the length of `s`.
pub open spec fn next_newline(s: Seq<char>, k: int) -> int
    decreases s.len() - k,
{
    if k >= s.len() {
        s.len() as int
    } else if s[k] == '\n' {
        k
    } else {
        next_newline(s, k + 1)
    }
}

proof fn lemma_next_newline(s: Seq<char>, k: int)
    requires
        0 <= k <= s.len(),
    ensures
        k <= next_newline(s, k) <= s.len(),
        next_newline(s, k) < s.len() ==> s[next_newline(s, k)] == '\n',
    decreases s.len() - k,
{
    if k < s.len() && s[k] != '\n' {
        lemma_next_newline(s, k + 1);
    }
}

/// The rules held by the text `s` from position `start` on: its lines in
/// order, each trimmed, without blank lines and comments.
pub open spec fn rules_from(s: Seq<char>, start: int) -> Seq<Seq<char>>
    decreases s.len() - start,
    when 0 <= start <= s.len()
    via rules_from_decreases
{
    let e = next_newline(s, start);
    let line = trim(s.subrange(start, e));
    let rest = if e < s.len() {
        rules_from(s, e + 1)
    } else {
        Seq::empty()
    };
    if is_rule_line(line) {
        seq![line] + rest
    } else {
        rest
    }
}

#[via_fn]
proof fn rules_from_decreases(s: Seq<char>, start: int) {
    lemma_next_newline(s, start);
}

/// The rules of an ignore file with content `s`.
pub open spec fn rules_of(s: Seq<char>) -> Seq<Seq<char>> {
    rules_from(s, 0)
}

/// The views of a sequence of strings.
pub open spec fn string_views(v: Seq<String>) -> Seq<Seq<char>> {
    v.map_values(|x: String| x@)
}

/// The last segment of a `/`-separated path.
pub open spec fn base_name(s: Seq<char>) -> Seq<char>
    decreases s.len(),
{
    if s.len() == 0 || s.last() == '/' {
        Seq::empty()
    } else {
        base_name(s.drop_last()).push(s.last())
    }
}

/// Whether one ignore rule excludes an entry with base name `name`. A leading
/// `/` is dropped; a trailing `/` restricts the rule to directories and is
/// dropped before the rest is matched as a wildcard pattern.
pub open spec fn rule_applies(rule: Seq<char>, name: Seq<char>, is_dir: bool) -> bool {
    let body = if rule.len() > 0 && rule[0] == '/' {
        rule.drop_first()
    } else {
        rule
    };
    if body.len() > 0 && body.last() == '/' {
        is_dir && glob_matches(name, body.drop_last())
    } else {
        glob_matches(name, body)
    }
}

/// The final name of a `/`-separated path, as `Path::file_name` gives it:
/// trailing `/`s and `.` segments are skipped; a path that ends in `..`, or
/// has no segment left, has no name.
pub open spec fn file_name(s: Seq<char>) -> Option<Seq<char>>
    decreases s.len(),
{
    if s.len() == 0 {
        None
    } else if s.last() == '/' {
        file_name(s.drop_last())
    } else if base_name(s) == seq!['.'] {
        file_name(s.drop_last())
    } else if base_name(s) == seq!['.', '.'] {
        None
    } else {
        Some(base_name(s))
    }
}

/// Whether any of `rules` excludes the entry at `path`. A path without a
/// final name is never excluded.
pub open spec fn ignored_by(rules: Seq<Seq<char>>, path: Seq<char>, is_dir: bool) -> bool {
    match file_name(path) {
        None => false,
        Some(name) => exists|k: int|
            0 <= k < rules.len() && #[trigger] rule_applies(rules[k], name, is_dir),
    }
}

/// The last segment holds no `/`, and a text without `/` is its own last
/// segment.
pub proof fn lemma_base_name_slash_free(s: Seq<char>)
    ensures
        forall|i: int| 0 <= i < base_name(s).len() ==> base_name(s)[i] != '/',
        (forall|i: int| 0 <= i < s.len() ==> s[i] != '/') ==> base_name(s) == s,
    decreases s.len(),
{
    if s.len() > 0 && s.last() != '/' {
        lemma_base_name_slash_free(s.drop_last());
        let b = base_name(s.drop_last());
        assert forall|i: int| 0 <= i < base_name(s).len() implies base_name(s)[i] != '/' by {
            if i < b.len() {
                assert(base_name(s)[i] == b[i]);
            }
        }
        if forall|i: int| 0 <= i < s.len() ==> s[i] != '/' {
            assert(forall|i: int| 0 <= i < s.drop_last().len() ==> s.drop_last()[i] != '/');
            assert(s.drop_last().push(s.last()) =~= s);
        }
    }
}

/// A final name holds no `/`, and so is its own last segment.
pub proof fn lemma_file_name_slash_free(s: Seq<char>)
    ensures
        file_name(s) matches Some(n) ==> base_name(n) == n,
    decreases s.len(),
{
    if s.len() > 0 {
        lemma_file_name_slash_free(s.drop_last());
        lemma_base_name_slash_free(s);
        lemma_base_name_slash_free(base_name(s));
    }
}

/// The exclusion rules read from an ignore file, in file order.
pub struct GitignoreFilter {
    rules: Vec<String>,
}

impl View for GitignoreFilter {
    type V = Seq<Seq<char>>;

    closed spec fn view(&self) -> Seq<Seq<char>> {
        string_views(self.rules@)
    }
}

impl GitignoreFilter {
    /// Reads the rules from the text of an ignore file: each line is trimmed,
    /// blank lines and lines that start with `#` are skipped, and the rest are
    /// kept verbatim and in order.
    pub fn parse(content: &str) -> (r: Self)
        ensures
            r@ == rules_of(content@),
    {
        let cs = chars_of(content);
        let ghost s = content@;
        let n = cs.len();
        let mut rules: Vec<String> = Vec::new();
        let mut start: usize = 0;
        let mut done = false;
        while !done
            invariant
                s == cs@,
                s == content@,
                n == s.len(),
                start <= n,
                done ==> string_views(rules@) == rules_of(s),
                !done ==> string_views(rules@) + rules_from(s, start as int) == rules_of(s),
            decreases n - start + (if done { 0int } else { 1int }),
        {
            let mut e = start;
            while e < n && cs[e] != '\n'
                invariant
                    s == cs@,
                    n == s.len(),
                    start <= e <= n,
                    next_newline(s, start as int) == next_newline(s, e as int),
                decreases n - e,
            {
                e = e + 1;
            }
            let mut lo = start;
            while lo < e && is_space_char(cs[lo])
                invariant
                    s == cs@,
                    n == s.len(),
                    start <= lo <= e <= n,
                    trim_start(s.subrange(start as int, e as int)) == trim_start(
                        s.subrange(lo as int, e as int),
                    ),
                decreases e - lo,
            {
                assert(s.subrange(lo as int, e as int).drop_first() =~= s.subrange(
                    lo + 1,
                    e as int,
                ));
                lo = lo + 1;
            }
            let mut hi = e;
            while hi > lo && is_space_char(cs[hi - 1])
                invariant
                    s == cs@,
                    n == s.len(),
                    start <= lo <= hi <= e <= n,
                    trim_end(s.subrange(lo as int, e as int)) == trim_end(
                        s.subrange(lo as int, hi as int),
                    ),
                decreases hi - lo,
            {
                assert(s.subrange(lo as int, hi as int).drop_last() =~= s.subrange(
                    lo as int,
                    hi - 1,
                ));
                hi = hi - 1;
            }
            let ghost line = s.subrange(lo as int, hi as int);
            assert(trim(s.subrange(start as int, e as int)) == line);
            let ghost before = string_views(rules@);
            if lo < hi && cs[lo] != '#' {
                let rule = content.substring_char(lo, hi).to_owned();
                rules.push(rule);
                assert(string_views(rules@) =~= before.push(line));
                assert(before.push(line) + rules_from(s, e + 1) =~= before + (seq![line]
                    + rules_from(s, e + 1)));
            }
            if e < n {
                start = e + 1;
            } else {
                assert(string_views(rules@) + Seq::<Seq<char>>::empty() =~= string_views(rules@));
                assert(before.push(line) + Seq::<Seq<char>>::empty() =~= before + (seq![line]
                    + Seq::<Seq<char>>::empty()));
                done = true;
            }
        }
        GitignoreFilter { rules }
    }

    /// Whether `text` matches the wildcard `pattern`: `*` matches any run of
    /// characters, `?` any single character, anything else itself.
    pub fn wildcard_match(&self, text: &str, pattern: &str) -> (r: bool)
        ensures
            r == glob_matches(text@, pattern@),
    {
        let t = chars_of(text);
        let p = chars_of(pattern);
        wildcard_chars(&t, &p)
    }

    /// Whether `rule` excludes the entry at `path` (matched by its base name).
    pub fn matches_rule(&self, path: &str, rule: &str, is_dir: bool) -> (r: bool)
        ensures
            r == rule_applies(rule@, base_name(path@), is_dir),
    {
        let len = rule.unicode_len();
        let rule_pattern = if len > 0 && rule.get_char(0) == '/' {
            rule.substring_char(1, len)
        } else {
            rule
        };
        assert(rule_pattern@ =~= (if rule@.len() > 0 && rule@[0] == '/' {
            rule@.drop_first()
        } else {
            rule@
        }));
        let plen = rule_pattern.unicode_len();
        let dir_only = plen > 0 && rule_pattern.get_char(plen - 1) == '/';
        if dir_only && !is_dir {
            return false;
        }
        let rule_pattern = if dir_only {
            rule_pattern.substring_char(0, plen - 1)
        } else {
            rule_pattern
        };
        proof {
            if dir_only {
                assert(rule_pattern@ =~= rule@.drop_first().drop_last() || rule_pattern@
                    =~= rule@.drop_last());
            }
        }
        let file_name = last_segment(path);
        self.wildcard_match(file_name, rule_pattern)
    }

    /// Whether any rule excludes the entry at `path`; `is_dir` tells whether
    /// the entry is a directory.
    pub fn should_ignore(&self, path: &str, is_dir: bool) -> (r: bool)
        ensures
            r == ignored_by(self@, path@, is_dir),
    {
        let name = match file_name_of(path) {
            Some(n) => n,
            None => {
                return false;
            },
        };
        proof {
            lemma_file_name_slash_free(path@);
        }
        let mut k: usize = 0;
        while k < self.rules.len()
            invariant
                0 <= k <= self.rules@.len(),
                self@ == string_views(self.rules@),
                file_name(path@) == Some(name@),
                base_name(name@) == name@,
                forall|m: int| 0 <= m < k ==> !rule_applies(#[trigger] self@[m], name@, is_dir),
            decreases self.rules@.len() - k,
        {
            if self.matches_rule(name, self.rules[k].as_str(), is_dir) {
                assert(0 <= k < self@.len() && rule_applies(self@[k as int], name@, is_dir));
                let ghost fname = file_name(path@)->Some_0;
                assert(fname == name@);
                assert(rule_applies(self@[k as int], fname, is_dir));
                return true;
            }
            k = k + 1;
        }
        false
    }

    /// The rules of the ignore file at `gitignore_path`, given what reading it
    /// gave: `None` where the file does not exist, the read error where it
    /// could not be read, and its text otherwise.
    pub fn build_from_gitignore(
        gitignore_path: &str,
        content: Option<Result<String, std::io::Error>>,
    ) -> (r: Result<Option<Self>, TreeError>)
        ensures
            content is None ==> (r is Ok && r->Ok_0 is None),
            content matches Some(Err(_)) ==> (r matches Err(TreeError::ReadGitignore(p, _))
                && p@ == gitignore_path@),
            content matches Some(Ok(text)) ==> (r matches Ok(Some(f)) && f@ == rules_of(
                text@,
            )),
    {
        match content {
            None => Ok(None),
            Some(Err(e)) => Err(TreeError::ReadGitignore(gitignore_path.to_owned(), e)),
            Some(Ok(text)) => Ok(Some(GitignoreFilter::parse(text.as_str()))),
        }
    }
}

/// Where the last segment of `cs[..end]` starts.
fn segment_start(cs: &Vec<char>, end: usize) -> (k: usize)
    requires
        end <= cs@.len(),
    ensures
        k <= end,
        cs@.subrange(k as int, end as int) == base_name(cs@.take(end as int)),
{
    let ghost s = cs@.take(end as int);
    let mut k = end;
    assert(s.subrange(0, end as int) =~= s);
    assert(base_name(s) + s.subrange(end as int, end as int) =~= base_name(s));
    while k > 0 && cs[k - 1] != '/'
        invariant
            s == cs@.take(end as int),
            end <= cs@.len(),
            k <= end,
            base_name(s) == base_name(s.subrange(0, k as int)) + s.subrange(k as int, end as int),
        decreases k,
    {
        let ghost pre = s.subrange(0, k as int);
        assert(pre.drop_last() =~= s.subrange(0, k - 1));
        assert(base_name(pre.drop_last()).push(pre.last()) + s.subrange(k as int, end as int)
            =~= base_name(s.subrange(0, k - 1)) + s.subrange(k - 1, end as int));
        k = k - 1;
    }
    assert(base_name(s.subrange(0, k as int)) =~= Seq::<char>::empty());
    assert(s.subrange(k as int, end as int) =~= cs@.subrange(k as int, end as int));
    assert(base_name(s) =~= s.subrange(k as int, end as int));
    k
}

/// The last segment of a `/`-separated path: the text after its last `/`.
pub fn last_segment(path: &str) -> (r: &str)
    ensures
        r@ == base_name(path@),
{
    let cs = chars_of(path);
    let n = cs.len();
    let k = segment_start(&cs, n);
    assert(cs@.take(n as int) =~= path@);
    path.substring_char(k, n)
}

/// The final name of a path, as `Path::file_name` gives it.
pub fn file_name_of(path: &str) -> (r: Option<&str>)
    ensures
        match file_name(path@) {
            None => r is None,
            Some(n) => r is Some && r->Some_0@ == n,
        },
{
    let cs = chars_of(path);
    let ghost s = path@;
    let n = cs.len();
    let mut end = n;
    assert(s.take(n as int) =~= s);
    loop
        invariant
            s == cs@,
            s == path@,
            n == s.len(),
            end <= n,
            file_name(s) == file_name(s.take(end as int)),
        decreases end,
    {
        if end == 0 {
            assert(s.take(0) =~= Seq::<char>::empty());
            return None;
        }
        assert(s.take(end as int).drop_last() =~= s.take(end - 1));
        if cs[end - 1] == '/' {
            end = end - 1;
            continue;
        }
        let start = segment_start(&cs, end);
        let ghost seg = s.subrange(start as int, end as int);
        assert(s.take(end as int).last() == cs@[end - 1]);
        assert(base_name(s.take(end as int)) == seg);
        assert(s.take(end as int).len() > 0);
        if end - start == 1 && cs[start] == '.' {
            assert(seg =~= seq!['.']);
            end = end - 1;
            continue;
        }
        if end - start == 2 && cs[start] == '.' && cs[start + 1] == '.' {
            assert(seg =~= seq!['.', '.']);
            return None;
        }
        assert(seg != seq!['.']) by {
            if seg == seq!['.'] {
                assert(seg.len() == 1 && seg[0] == cs@[start as int]);
            }
        }
        assert(seg != seq!['.', '.']) by {
            if seg == seq!['.', '.'] {
                assert(seg.len() == 2 && seg[0] == cs@[start as int] && seg[1] == cs@[start + 1]);
            }
        }
        return Some(path.substring_char(start, end));
    }
}


/// Whether a name marks a hidden entry.
pub open spec fn is_hidden_name(name: Seq<char>) -> bool {
    name.len() > 0 && name[0] == '.'
}

/// The positions in `items`, from `k` on, of the entries that stay visible
/// under `config` and `rules`, or the first file-type error among the entries
/// that the hidden-name test lets through.
pub open spec fn visible_from(
    items: Seq<FsNode>,
    config: TreeConfig,
    rules: Option<Seq<Seq<char>>>,
    k: int,
) -> Result<Seq<int>, TreeError>
    decreases items.len() - k,
{
    if k < 0 || k >= items.len() {
        Ok(Seq::empty())
    } else {
        let n = items[k];
        if !config.show_hidden && is_hidden_name(n.name@) {
            visible_from(items, config, rules, k + 1)
        } else {
            match n.file_type {
                Err(e) => Err(e),
                Ok(d) => {
                    let dropped = (config.dirs_only && !d) || (rules is Some && ignored_by(
                        rules->Some_0,
                        n.path@,
                        d,
                    ));
                    match visible_from(items, config, rules, k + 1) {
                        Ok(rest) => if dropped {
                            Ok(rest)
                        } else {
                            Ok(seq![k] + rest)
                        },
                        Err(e) => Err(e),
                    }
                },
            }
        }
    }
}

/// The visible entries of a whole listing.
pub open spec fn visible(
    items: Seq<FsNode>,
    config: TreeConfig,
    rules: Option<Seq<Seq<char>>>,
) -> Result<Seq<int>, TreeError> {
    visible_from(items, config, rules, 0)
}

/// The rules of an optional filter.
pub open spec fn rules_opt(f: Option<&GitignoreFilter>) -> Option<Seq<Seq<char>>> {
    match f {
        Some(g) => Some(g@),
        None => None,
    }
}

/// The positions, in listing order, of the entries that stay visible: hidden
/// names are dropped unless `config.show_hidden`, non-directories when
/// `config.dirs_only`, and entries that a rule of `gitignore_filter` excludes.
/// Fails with the first file-type error met among entries not already dropped
/// for their name.
pub fn filter_entries_by_config<'a>(
    entries: &'a Vec<FsNode>,
    config: &TreeConfig,
    gitignore_filter: Option<&GitignoreFilter>,
) -> (r: Result<Vec<usize>, &'a TreeError>)
    ensures
        match visible(entries@, *config, rules_opt(gitignore_filter)) {
            Ok(v) => r is Ok && r->Ok_0@.map_values(|i: usize| i as int) == v,
            Err(e) => r is Err && *r->Err_0 == e,
        },
{
    let ghost items = entries@;
    let ghost rules = rules_opt(gitignore_filter);
    let mut filtered: Vec<usize> = Vec::new();
    let mut k: usize = 0;
    while k < entries.len()
        invariant
            items == entries@,
            rules == rules_opt(gitignore_filter),
            k <= items.len(),
            forall|m: int| 0 <= m < filtered@.len() ==> filtered@[m] < k,
            match visible_from(items, *config, rules, k as int) {
                Ok(rest) => visible(items, *config, rules) == Ok::<Seq<int>, TreeError>(
                    filtered@.map_values(|i: usize| i as int) + rest,
                ),
                Err(e) => visible(items, *config, rules) == Err::<Seq<int>, TreeError>(e),
            },
        decreases items.len() - k,
    {
        let entry = &entries[k];
        let ghost before = filtered@.map_values(|i: usize| i as int);
        if !config.show_hidden && starts_with_dot(entry.name.as_str()) {
            k = k + 1;
            continue;
        }
        let is_dir = match &entry.file_type {
            Ok(d) => *d,
            Err(e) => {
                return Err(e);
            },
        };
        let mut dropped = config.dirs_only && !is_dir;
        if !dropped {
            if let Some(filter) = gitignore_filter {
                dropped = filter.should_ignore(entry.path.as_str(), is_dir);
            }
        }
        if !dropped {
            filtered.push(k);
            proof {
                assert(filtered@.map_values(|i: usize| i as int) =~= before.push(k as int));
                if let Ok(rest) = visible_from(items, *config, rules, k + 1) {
                    assert(before.push(k as int) + rest =~= before + (seq![k as int] + rest));
                }
            }
        }
        k = k + 1;
    }
    proof {
        assert(filtered@.map_values(|i: usize| i as int) + Seq::<int>::empty() =~= filtered@.map_values(
            |i: usize| i as int,
        ));
    }
    Ok(filtered)
}

/// Whether `name` starts with a dot.
pub fn starts_with_dot(name: &str) -> (r: bool)
    ensures
        r == is_hidden_name(name@),
{
    name.unicode_len() > 0 && name.get_char(0) == '.'
}

} // verus!
