//! The JSON window's state: the text, the messages under it, the fold tree,
//! and what each button does to them. The toolkit draws the state.

use vstd::prelude::*;
use crate::json_ops::{
    format_json, issue_display, json_accepts, json_compact, json_error_column, json_error_line, json_error_text,
    json_pretty, message_without_position, minify_json, tree_of, tree_of_text, unescape_json, unescaped_text,
    validate_json, JsonIssue,
};
use crate::json_tree::{all_expanded, folded_to_level, toggled, visible_at, well_formed, JsonTree, RawTreeNode, rows_model};
use crate::text::{all_whitespace, all_ws, chars_of, push_str};

verus! {

broadcast use vstd::string::group_string_axioms;

/// Shown when a JSON action finds the text empty.
pub open spec fn empty_json_message() -> Seq<char> {
    "这一栏是空的\n先粘贴一段 JSON。"@
}

/// Shown when unescaping finds the text empty.
pub open spec fn empty_escaped_message() -> Seq<char> {
    "这一栏是空的\n先粘贴一段含转义字符的文本。"@
}

/// Shown when the tree view is asked for with nothing typed.
pub open spec fn empty_tree_message() -> Seq<char> {
    "当前为空，请先输入 JSON 内容"@
}

/// Precedes the parse error when the tree view cannot be shown.
pub open spec fn tree_error_prefix() -> Seq<char> {
    "无法解析为 JSON 进行树形折叠："@
}

fn owned(s: &str) -> (r: String)
    ensures
        r@ == s@,
{
    s.to_owned()
}

/// The view that shows the text.
pub const TEXT_MODE: i32 = 0;

/// The view that shows the fold tree.
pub const TREE_MODE: i32 = 1;

/// What the JSON window shows.
pub struct JsonView {
    pub text: String,
    pub error: String,
    pub note: String,
    pub can_copy: bool,
    pub view_mode: i32,
    pub copied: bool,
    pub tree: Option<JsonTree>,
}

/// A tree, where there is one, is well formed.
pub open spec fn tree_ok(v: JsonView) -> bool {
    match v.tree {
        Some(t) => well_formed(t@),
        None => true,
    }
}

/// `after` is `before` with the message `error` shown and the note cleared:
/// the text, the tree, the copy flags and the view stay.
pub open spec fn refused(before: JsonView, after: JsonView, error: Seq<char>) -> bool {
    &&& after.error@ == error && after.note@.len() == 0
    &&& after.text == before.text && after.can_copy == before.can_copy
    &&& after.tree == before.tree && after.view_mode == before.view_mode
    &&& after.copied == before.copied
}

/// The report shown for a text that serde_json refuses.
pub open spec fn parse_report(text: Seq<char>) -> Seq<char> {
    issue_display(json_error_line(text) as nat, json_error_column(text) as nat, message_without_position(json_error_text(text)))
}

impl JsonView {
    /// The window as it opens: no text, the text view, no tree.
    pub fn new() -> (r: JsonView)
        ensures
            r.text@.len() == 0 && r.error@.len() == 0 && r.note@.len() == 0,
            !r.can_copy && !r.copied && r.view_mode == TEXT_MODE && r.tree is None,
    {
        JsonView {
            text: String::new(),
            error: String::new(),
            note: String::new(),
            can_copy: false,
            view_mode: TEXT_MODE,
            copied: false,
            tree: None,
        }
    }

    /// The user edited the text: copying is offered when it is not blank,
    /// and the tree of the old text is dropped.
    pub fn text_edited(&mut self, val: String)
        ensures
            final(self).text@ == val@,
            final(self).can_copy == !all_ws(val@),
            final(self).tree is None,
            final(self).error == old(self).error && final(self).note == old(self).note,
            final(self).view_mode == old(self).view_mode && final(self).copied == old(self).copied,
    {
        let v = chars_of(val.as_str());
        self.can_copy = !all_whitespace(&v);
        self.text = val;
        self.tree = None;
    }

    fn refuse_empty(&mut self, message: &str)
        ensures
            final(self).error@ == message@,
            final(self).note@.len() == 0,
            final(self).text == old(self).text && final(self).can_copy == old(self).can_copy,
            final(self).tree == old(self).tree && final(self).view_mode == old(self).view_mode,
            final(self).copied == old(self).copied,
    {
        self.error = owned(message);
        self.note = String::new();
    }

    fn show_issue(&mut self, issue: &JsonIssue)
        ensures
            final(self).error@ == crate::json_ops::issue_display(
                issue.line as nat,
                issue.column as nat,
                issue.message@,
            ),
            final(self).note@.len() == 0,
            final(self).text == old(self).text && final(self).can_copy == old(self).can_copy,
            final(self).tree == old(self).tree && final(self).view_mode == old(self).view_mode,
            final(self).copied == old(self).copied,
    {
        self.error = issue.display();
        self.note = String::new();
    }

    fn show_result(&mut self, out: String, note: &str)
        ensures
            final(self).text@ == out@,
            final(self).error@.len() == 0,
            final(self).note@ == note@,
            final(self).tree == old(self).tree && final(self).view_mode == old(self).view_mode,
            final(self).copied == old(self).copied,
    {
        self.text = out;
        self.error = String::new();
        self.note = owned(note);
    }

    /// The format button. On a blank text: the empty message. On text that
    /// is no JSON: its parse error, the text kept. Otherwise the text is
    /// re-printed with indentation, copying is offered, and the tree shows
    /// the document, every container unfolded.
    pub fn format_clicked(&mut self)
        ensures
            tree_ok(*old(self)) ==> tree_ok(*final(self)),
            all_ws(old(self).text@) ==> refused(*old(self), *final(self), empty_json_message()),
            !all_ws(old(self).text@) && !json_accepts(old(self).text@) ==> refused(
                *old(self),
                *final(self),
                parse_report(old(self).text@),
            ),
            !all_ws(old(self).text@) && json_accepts(old(self).text@) ==> {
                &&& final(self).text@ == json_pretty(old(self).text@)
                &&& final(self).note@ == "已格式化"@ && final(self).error@.len() == 0 && final(self).can_copy
                &&& final(self).tree matches Some(t) && t@ == tree_of(old(self).text@)
            },
            final(self).view_mode == old(self).view_mode && final(self).copied == old(self).copied,
    {
        let v = chars_of(self.text.as_str());
        if all_whitespace(&v) {
            self.refuse_empty("这一栏是空的\n先粘贴一段 JSON。");
            return;
        }
        match format_json(self.text.as_str()) {
            Ok(out) => {
                let tree = tree_of_text(self.text.as_str());
                self.show_result(out, "已格式化");
                self.can_copy = true;
                self.tree = tree;
            },
            Err(issue) => {
                self.show_issue(&issue);
            },
        }
    }

    /// The minify button, as [`Self::format_clicked`] with the text
    /// re-printed on one line.
    pub fn minify_clicked(&mut self)
        ensures
            tree_ok(*old(self)) ==> tree_ok(*final(self)),
            all_ws(old(self).text@) ==> refused(*old(self), *final(self), empty_json_message()),
            !all_ws(old(self).text@) && !json_accepts(old(self).text@) ==> refused(
                *old(self),
                *final(self),
                parse_report(old(self).text@),
            ),
            !all_ws(old(self).text@) && json_accepts(old(self).text@) ==> {
                &&& final(self).text@ == json_compact(old(self).text@)
                &&& final(self).note@ == "已压缩"@ && final(self).error@.len() == 0 && final(self).can_copy
                &&& final(self).tree matches Some(t) && t@ == tree_of(old(self).text@)
            },
            final(self).view_mode == old(self).view_mode && final(self).copied == old(self).copied,
    {
        let v = chars_of(self.text.as_str());
        if all_whitespace(&v) {
            self.refuse_empty("这一栏是空的\n先粘贴一段 JSON。");
            return;
        }
        match minify_json(self.text.as_str()) {
            Ok(out) => {
                let tree = tree_of_text(self.text.as_str());
                self.show_result(out, "已压缩");
                self.can_copy = true;
                self.tree = tree;
            },
            Err(issue) => {
                self.show_issue(&issue);
            },
        }
    }

    /// The unescape button. On a blank text: its empty message. Otherwise
    /// the unescaped text (see [`unescaped_text`]) replaces the text, copying
    /// is offered when it is not blank, and where it is a JSON document the
    /// tree shows it.
    pub fn unescape_clicked(&mut self)
        ensures
            tree_ok(*old(self)) ==> tree_ok(*final(self)),
            all_ws(old(self).text@) ==> refused(*old(self), *final(self), empty_escaped_message()),
            !all_ws(old(self).text@) ==> {
                &&& final(self).text@ == unescaped_text(old(self).text@)
                &&& final(self).note@ == "已去转义"@ && final(self).error@.len() == 0
                &&& final(self).can_copy == !all_ws(final(self).text@)
                &&& json_accepts(final(self).text@) ==> (final(self).tree matches Some(t) && t@ == tree_of(
                    final(self).text@,
                ))
                &&& !json_accepts(final(self).text@) ==> final(self).tree == old(self).tree
            },
            final(self).view_mode == old(self).view_mode && final(self).copied == old(self).copied,
    {
        let v = chars_of(self.text.as_str());
        if all_whitespace(&v) {
            self.refuse_empty("这一栏是空的\n先粘贴一段含转义字符的文本。");
            return;
        }
        match unescape_json(self.text.as_str()) {
            Ok(out) => {
                let ov = chars_of(out.as_str());
                let tree = tree_of_text(out.as_str());
                self.show_result(out, "已去转义");
                self.can_copy = !all_whitespace(&ov);
                match tree {
                    Some(t) => {
                        self.tree = Some(t);
                    },
                    None => {},
                }
            },
            Err(issue) => {
                self.show_issue(&issue);
            },
        }
    }

    /// The validate button. On a blank text: the empty message. On text
    /// that is no JSON: its parse error. Otherwise a note that it is valid,
    /// and the tree shows the document.
    pub fn validate_clicked(&mut self)
        ensures
            tree_ok(*old(self)) ==> tree_ok(*final(self)),
            final(self).text == old(self).text && final(self).can_copy == old(self).can_copy,
            all_ws(old(self).text@) ==> refused(*old(self), *final(self), empty_json_message()),
            !all_ws(old(self).text@) && !json_accepts(old(self).text@) ==> refused(
                *old(self),
                *final(self),
                parse_report(old(self).text@),
            ),
            !all_ws(old(self).text@) && json_accepts(old(self).text@) ==> {
                &&& final(self).note@ == "JSON 有效"@ && final(self).error@.len() == 0
                &&& final(self).tree matches Some(t) && t@ == tree_of(old(self).text@)
            },
            final(self).view_mode == old(self).view_mode && final(self).copied == old(self).copied,
    {
        let v = chars_of(self.text.as_str());
        if all_whitespace(&v) {
            self.refuse_empty("这一栏是空的\n先粘贴一段 JSON。");
            return;
        }
        match validate_json(self.text.as_str()) {
            Ok(()) => {
                self.error = String::new();
                self.note = owned("JSON 有效");
                self.tree = tree_of_text(self.text.as_str());
            },
            Err(issue) => {
                self.show_issue(&issue);
            },
        }
    }

    /// Asks for the tree view. On a blank text: a message. On text that is
    /// no JSON: the parse error after an explanation. Otherwise the tree
    /// shows the document, every container unfolded, in the tree view.
    pub fn switch_to_tree(&mut self)
        ensures
            tree_ok(*old(self)) ==> tree_ok(*final(self)),
            final(self).text == old(self).text && final(self).can_copy == old(self).can_copy,
            final(self).copied == old(self).copied,
            all_ws(old(self).text@) ==> refused(*old(self), *final(self), empty_tree_message()),
            !all_ws(old(self).text@) && !json_accepts(old(self).text@) ==> refused(
                *old(self),
                *final(self),
                tree_error_prefix() + parse_report(old(self).text@),
            ),
            !all_ws(old(self).text@) && json_accepts(old(self).text@) ==> {
                &&& final(self).view_mode == TREE_MODE && final(self).error@.len() == 0
                &&& final(self).note == old(self).note
                &&& final(self).tree matches Some(t) && t@ == tree_of(old(self).text@)
            },
    {
        let v = chars_of(self.text.as_str());
        if all_whitespace(&v) {
            self.refuse_empty("当前为空，请先输入 JSON 内容");
            return;
        }
        match validate_json(self.text.as_str()) {
            Ok(()) => {
                self.tree = tree_of_text(self.text.as_str());
                self.view_mode = TREE_MODE;
                self.error = String::new();
            },
            Err(issue) => {
                let mut msg = owned("无法解析为 JSON 进行树形折叠：");
                let shown = issue.display();
                push_str(&mut msg, shown.as_str());
                self.error = msg;
                self.note = String::new();
            },
        }
    }

    /// Back to the text view.
    pub fn switch_to_text(&mut self)
        ensures
            final(self).view_mode == TEXT_MODE,
            final(self).tree == old(self).tree && final(self).text == old(self).text,
            final(self).error == old(self).error && final(self).note == old(self).note,
            final(self).can_copy == old(self).can_copy && final(self).copied == old(self).copied,
    {
        self.view_mode = TEXT_MODE;
    }

    /// The rows the tree view shows, where there is a tree.
    pub fn tree_rows(&self) -> (r: Option<Vec<RawTreeNode>>)
        requires
            tree_ok(*self),
        ensures
            match self.tree {
                Some(t) => r matches Some(rows) && rows_model(rows@) == visible_at(t@, 0),
                None => r is None,
            },
    {
        match &self.tree {
            Some(t) => Some(t.visible_nodes()),
            None => None,
        }
    }

    /// A click on a row's fold marker, where there is a tree.
    pub fn toggle_fold(&mut self, node_id: usize)
        requires
            tree_ok(*old(self)),
        ensures
            tree_ok(*final(self)),
            match old(self).tree {
                Some(t) => final(self).tree matches Some(u) && u@ == toggled(t@, node_id as int),
                None => final(self).tree is None,
            },
            final(self).text == old(self).text && final(self).view_mode == old(self).view_mode,
    {
        let mut tree = None;
        std::mem::swap(&mut tree, &mut self.tree);
        match tree {
            Some(mut t) => {
                proof {
                    crate::json_tree::lemma_fold_ops_keep_rows(t@, node_id as int, true, 0);
                }
                t.toggle(node_id);
                self.tree = Some(t);
            },
            None => {},
        }
    }

    /// The "expand all" button, where there is a tree.
    pub fn expand_all(&mut self)
        requires
            tree_ok(*old(self)),
        ensures
            tree_ok(*final(self)),
            match old(self).tree {
                Some(t) => final(self).tree matches Some(u) && u@ == all_expanded(t@, true),
                None => final(self).tree is None,
            },
            final(self).text == old(self).text && final(self).view_mode == old(self).view_mode,
    {
        let mut tree = None;
        std::mem::swap(&mut tree, &mut self.tree);
        match tree {
            Some(mut t) => {
                proof {
                    crate::json_tree::lemma_fold_ops_keep_rows(t@, 0, true, 0);
                }
                t.expand_all();
                self.tree = Some(t);
            },
            None => {},
        }
    }

    /// The "collapse all" button, where there is a tree.
    pub fn collapse_all(&mut self)
        requires
            tree_ok(*old(self)),
        ensures
            tree_ok(*final(self)),
            match old(self).tree {
                Some(t) => final(self).tree matches Some(u) && u@ == all_expanded(t@, false),
                None => final(self).tree is None,
            },
            final(self).text == old(self).text && final(self).view_mode == old(self).view_mode,
    {
        let mut tree = None;
        std::mem::swap(&mut tree, &mut self.tree);
        match tree {
            Some(mut t) => {
                proof {
                    crate::json_tree::lemma_fold_ops_keep_rows(t@, 0, false, 0);
                }
                t.collapse_all();
                self.tree = Some(t);
            },
            None => {},
        }
    }

    /// A fold-level button, where there is a tree.
    pub fn fold_level(&mut self, level: usize)
        requires
            tree_ok(*old(self)),
        ensures
            tree_ok(*final(self)),
            match old(self).tree {
                Some(t) => final(self).tree matches Some(u) && u@ == folded_to_level(t@, level as nat),
                None => final(self).tree is None,
            },
            final(self).text == old(self).text && final(self).view_mode == old(self).view_mode,
    {
        let mut tree = None;
        std::mem::swap(&mut tree, &mut self.tree);
        match tree {
            Some(mut t) => {
                proof {
                    crate::json_tree::lemma_fold_ops_keep_rows(t@, 0, true, level as nat);
                }
                t.fold_level(level);
                self.tree = Some(t);
            },
            None => {},
        }
    }

    /// The copy button: the text, where it is not blank; the window then
    /// shows that it copied.
    pub fn copy_clicked(&mut self) -> (r: Option<String>)
        ensures
            all_ws(old(self).text@) ==> r is None && final(self).copied == old(self).copied,
            !all_ws(old(self).text@) ==> (r matches Some(t) && t@ == old(self).text@ && final(self).copied),
            final(self).text == old(self).text && final(self).tree == old(self).tree,
            final(self).view_mode == old(self).view_mode,
    {
        let v = chars_of(self.text.as_str());
        if all_whitespace(&v) {
            return None;
        }
        self.copied = true;
        Some(self.text.clone())
    }

    /// The copy confirmation timed out.
    pub fn copy_expired(&mut self)
        ensures
            !final(self).copied,
            final(self).text == old(self).text && final(self).tree == old(self).tree,
            final(self).view_mode == old(self).view_mode,
    {
        self.copied = false;
    }
}

} // verus!
