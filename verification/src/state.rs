//! The document state: one session of the viewer, owned by the caller's
//! render/poll loop.  It carries the raw text, the outcome of the last
//! parse, the flat tree with its selection, and the status message, and it
//! makes every decision of the parse/format pipeline, the navigation
//! controller, and the edit-session hand-off.  What it cannot do itself —
//! clipboard, files, terminal, subprocesses — its caller performs, handing
//! plain values in and out.

use vstd::prelude::*;
use vstd::string::StringExecFns;

use crate::codec::fmt_mini;
use crate::codec::fmt_pretty;
use crate::codec::parse_of;
use crate::codec::mini_json_text;
use crate::codec::parse_json_text;
use crate::codec::pretty_json_text;
use crate::tree::NodeV;
use crate::tree::TreeNode;
use crate::tree::build_tree;
use crate::tree::flat_nodes;
use crate::tree::is_ancestor;
use crate::tree::lemma_built_tree;
use crate::tree::nodes_of;
use crate::tree::tree_shaped;
use crate::value::Json;
use crate::visibility::lemma_visible_pos;
use crate::visibility::visible_at;
use crate::visibility::visible_indices;
use crate::visibility::visible_list;
use crate::visibility::visible_pos;

verus! {

/// Which of the two screens is shown: the raw/pretty text or the tree.
#[derive(PartialEq, Eq, Structural, Clone, Copy)]
pub enum ViewMode {
    Raw,
    Tree,
}

/// One viewer session.  The invariant `inv` ties the fields together and
/// every method preserves it.
pub struct JsonUtils {
    /// The raw text as last pasted or reconciled from the file.
    pub raw_input: String,
    /// The pretty-printed rendering of the current document; empty while
    /// no document is valid.
    pub formatted_json: String,
    /// The current status or error message; empty when there is none.
    pub error_message: String,
    /// Whether `raw_input` currently parses to a document.
    pub is_valid: bool,
    /// Which screen is shown.
    pub view_mode: ViewMode,
    /// The flat pre-order tree of the current document; empty while no
    /// document is valid.
    pub json_tree: Vec<TreeNode>,
    /// Index into `json_tree` of the selected node; always a visible node
    /// while the tree is non-empty.
    pub selected_node: usize,
    /// The current document; present exactly while `is_valid`.
    pub parsed_value: Option<Json>,
    /// Set once control returns from an external program that had the
    /// terminal; the caller's loop reinitializes the display and clears it.
    pub needs_terminal_reinit: bool,
    /// How many lines the raw view is scrolled down.
    pub scroll_offset: usize,
}

/// Two flat trees with the same structure: equal except possibly in their
/// expand flags.
pub open spec fn same_structure(a: Seq<NodeV>, b: Seq<NodeV>) -> bool {
    &&& a.len() == b.len()
    &&& forall|i: int|
        0 <= i < a.len() ==> {
            &&& (#[trigger] a[i]).key == b[i].key
            &&& a[i].value == b[i].value
            &&& a[i].depth == b[i].depth
            &&& a[i].path == b[i].path
        }
}

/// The document-bearing fields are unchanged: only the status message or
/// the terminal flag may differ between `pre` and `post`.
pub open spec fn same_document(pre: JsonUtils, post: JsonUtils) -> bool {
    &&& post.raw_input == pre.raw_input
    &&& post.formatted_json == pre.formatted_json
    &&& post.is_valid == pre.is_valid
    &&& post.view_mode == pre.view_mode
    &&& post.json_tree == pre.json_tree
    &&& post.selected_node == pre.selected_node
    &&& post.parsed_value == pre.parsed_value
    &&& post.scroll_offset == pre.scroll_offset
}

/// All fields but the selection are unchanged.
pub open spec fn same_but_selection(pre: JsonUtils, post: JsonUtils) -> bool {
    &&& post.raw_input == pre.raw_input
    &&& post.formatted_json == pre.formatted_json
    &&& post.error_message == pre.error_message
    &&& post.is_valid == pre.is_valid
    &&& post.view_mode == pre.view_mode
    &&& post.json_tree == pre.json_tree
    &&& post.parsed_value == pre.parsed_value
    &&& post.needs_terminal_reinit == pre.needs_terminal_reinit
    &&& post.scroll_offset == pre.scroll_offset
}

/// All fields but the tree are unchanged.
pub open spec fn same_but_tree(pre: JsonUtils, post: JsonUtils) -> bool {
    &&& post.raw_input == pre.raw_input
    &&& post.formatted_json == pre.formatted_json
    &&& post.error_message == pre.error_message
    &&& post.is_valid == pre.is_valid
    &&& post.view_mode == pre.view_mode
    &&& post.selected_node == pre.selected_node
    &&& post.parsed_value == pre.parsed_value
    &&& post.needs_terminal_reinit == pre.needs_terminal_reinit
    &&& post.scroll_offset == pre.scroll_offset
}

/// All fields but the scroll offset are unchanged.
pub open spec fn same_but_scroll(pre: JsonUtils, post: JsonUtils) -> bool {
    &&& post.raw_input == pre.raw_input
    &&& post.formatted_json == pre.formatted_json
    &&& post.error_message == pre.error_message
    &&& post.is_valid == pre.is_valid
    &&& post.view_mode == pre.view_mode
    &&& post.json_tree == pre.json_tree
    &&& post.selected_node == pre.selected_node
    &&& post.parsed_value == pre.parsed_value
    &&& post.needs_terminal_reinit == pre.needs_terminal_reinit
}

/// Navigation boundedness, as one step over the visible order: moving past
/// either end is a no-op, and any other move lands on exactly the adjacent
/// visible node in the requested direction (`delta` is -1 for up, 1 for
/// down).
pub open spec fn selection_stepped(pre: JsonUtils, post: JsonUtils, delta: int) -> bool {
    let t = pre.nodes();
    let vs = visible_list(t);
    if pre.json_tree@.len() == 0 {
        post.selected_node == pre.selected_node
    } else {
        let k = visible_pos(t, pre.selected_node as int);
        if 0 <= k + delta < vs.len() {
            post.selected_node as int == vs[k + delta]
        } else {
            post.selected_node == pre.selected_node
        }
    }
}

/// What one run of the parse/format pipeline leaves behind when run on
/// `text`: on success the document, its pretty text, a fresh tree and a
/// reset selection; on a parse or format failure an invalid state with an
/// empty tree, cleared pretty text and the prefixed diagnostic.
pub open spec fn parse_outcome(pre: JsonUtils, post: JsonUtils, text: Seq<char>) -> bool {
    &&& post.view_mode == pre.view_mode
    &&& post.needs_terminal_reinit == pre.needs_terminal_reinit
    &&& match parse_of(text) {
        Result::Ok(v) => match fmt_pretty(v) {
            Result::Ok(p) => {
                &&& post.is_valid
                &&& (post.parsed_value matches Option::Some(pv) && pv@ == v)
                &&& post.formatted_json@ == p
                &&& post.error_message@ == Seq::<char>::empty()
                &&& nodes_of(post.json_tree@) == flat_nodes(v, ""@, 0, "root"@)
                &&& post.selected_node == 0
                &&& post.scroll_offset == 0
            },
            Result::Err(m) => {
                &&& !post.is_valid
                &&& post.parsed_value is None
                &&& post.json_tree@.len() == 0
                &&& post.formatted_json@ == Seq::<char>::empty()
                &&& post.error_message@ == "Format error: "@ + m
                &&& post.selected_node == pre.selected_node
                &&& post.scroll_offset == pre.scroll_offset
            },
        },
        Result::Err(m) => {
            &&& !post.is_valid
            &&& post.parsed_value is None
            &&& post.json_tree@.len() == 0
            &&& post.formatted_json@ == Seq::<char>::empty()
            &&& post.error_message@ == "Invalid JSON: "@ + m
            &&& post.selected_node == pre.selected_node
            &&& post.scroll_offset == pre.scroll_offset
        },
    }
}

fn prefixed_message(prefix: &str, detail: &str) -> (r: String)
    ensures
        r@ == prefix@ + detail@,
{
    let mut s = prefix.to_owned();
    s.append(detail);
    s
}

impl JsonUtils {
    /// The models of the tree nodes, in flat order.
    pub open spec fn nodes(self) -> Seq<NodeV> {
        nodes_of(self.json_tree@)
    }

    /// The structural well-formedness every method preserves: the tree is
    /// well-shaped and is the pre-order flattening of the current document
    /// (up to expand flags); the selection is a visible node whenever
    /// there is a tree; validity, the document and the tree come and go
    /// together.
    pub open spec fn inv(self) -> bool {
        &&& tree_shaped(self.nodes())
        &&& (self.json_tree@.len() > 0 ==> self.selected_node < self.json_tree@.len()
            && visible_at(self.nodes(), self.selected_node as int))
        &&& (self.is_valid <==> self.parsed_value is Some)
        &&& (self.is_valid <==> self.json_tree@.len() > 0)
        &&& (match self.parsed_value {
            Option::Some(v) => same_structure(self.nodes(), flat_nodes(v@, ""@, 0, "root"@)),
            Option::None => true,
        })
    }

    /// A fresh, empty session: no text, no document, raw view.
    pub fn new() -> (r: JsonUtils)
        ensures
            r.inv(),
            r.raw_input@ == Seq::<char>::empty(),
            r.formatted_json@ == Seq::<char>::empty(),
            r.error_message@ == Seq::<char>::empty(),
            !r.is_valid,
            r.view_mode == ViewMode::Raw,
            r.json_tree@.len() == 0,
            r.selected_node == 0,
            r.parsed_value is None,
            !r.needs_terminal_reinit,
            r.scroll_offset == 0,
    {
        JsonUtils {
            raw_input: String::new(),
            formatted_json: String::new(),
            error_message: String::new(),
            is_valid: false,
            view_mode: ViewMode::Raw,
            json_tree: Vec::new(),
            selected_node: 0,
            parsed_value: Option::None,
            needs_terminal_reinit: false,
            scroll_offset: 0,
        }
    }

    /// One run of the parse/format pipeline over the current raw text:
    /// parse, validate, pretty-print, rebuild the tree and reset the
    /// selection; or, on failure, clear the document, the pretty text and
    /// the tree and surface the diagnostic.  The raw text itself is kept
    /// either way.
    pub fn parse_json(&mut self)
        ensures
            final(self).inv(),
            final(self).raw_input == old(self).raw_input,
            parse_outcome(*old(self), *final(self), old(self).raw_input@),
    {
        match parse_json_text(self.raw_input.as_str()) {
            Result::Ok(value) => {
                match pretty_json_text(&value) {
                    Result::Ok(formatted) => {
                        self.formatted_json = formatted;
                        self.is_valid = true;
                        self.error_message = String::new();
                        self.json_tree = build_tree(&value);
                        self.selected_node = 0;
                        self.scroll_offset = 0;
                        proof {
                            lemma_built_tree(value@, ""@, "root"@);
                        }
                        self.parsed_value = Option::Some(value);
                        proof {
                            let t = self.nodes();
                            assert forall|a: int| #[trigger]
                                is_ancestor(t, a, 0) implies t[a].expanded by {
                                assert(false);
                            }
                            assert(visible_at(t, 0));
                        }
                    },
                    Result::Err(m) => {
                        self.error_message = prefixed_message("Format error: ", m.as_str());
                        self.is_valid = false;
                        self.formatted_json = String::new();
                        self.parsed_value = Option::None;
                        self.json_tree = Vec::new();
                    },
                }
            },
            Result::Err(m) => {
                self.error_message = prefixed_message("Invalid JSON: ", m.as_str());
                self.is_valid = false;
                self.formatted_json = String::new();
                self.parsed_value = Option::None;
                self.json_tree = Vec::new();
            },
        }
    }

    /// Replaces the raw text — as pasted from the clipboard — and re-runs
    /// the pipeline.
    pub fn load_text(&mut self, text: String)
        ensures
            final(self).inv(),
            final(self).raw_input == text,
            parse_outcome(*old(self), *final(self), text@),
    {
        self.raw_input = text;
        self.parse_json();
    }

    /// Reconciles the content read back from the externalized file: when
    /// it differs from the in-memory raw text the file wins and the
    /// pipeline re-runs; when it does not, nothing changes.
    pub fn reconcile_file_content(&mut self, content: String)
        ensures
            old(self).inv() ==> final(self).inv(),
            content@ == old(self).raw_input@ ==> *final(self) == *old(self),
            content@ != old(self).raw_input@ ==> final(self).inv() && final(self).raw_input
                == content && parse_outcome(*old(self), *final(self), content@),
    {
        if !(self.raw_input == content) {
            self.raw_input = content;
            self.parse_json();
        }
    }

    /// The indices of the currently visible nodes, ascending: exactly
    /// those whose strict ancestors are all expanded.
    pub fn get_visible_nodes(&self) -> (r: Vec<usize>)
        requires
            self.inv(),
        ensures
            ({
                let t = self.nodes();
                &&& r@.len() == visible_list(t).len()
                &&& forall|k: int|
                    0 <= k < r@.len() ==> #[trigger] r@[k] as int == visible_list(t)[k]
                &&& forall|k: int|
                    0 <= k < r@.len() ==> visible_at(t, #[trigger] r@[k] as int) && r@[k]
                        < self.json_tree@.len()
                &&& forall|k1: int, k2: int| 0 <= k1 < k2 < r@.len() ==> r@[k1] < r@[k2]
                &&& forall|i: int|
                    0 <= i < t.len() && #[trigger] visible_at(t, i) ==> exists|k: int|
                        0 <= k < r@.len() && #[trigger] r@[k] as int == i
            }),
    {
        visible_indices(&self.json_tree)
    }

    /// Moves the selection to the previous visible node; at the first
    /// visible node it is a no-op, and the selection always stays on a
    /// visible node.
    #[verifier::loop_isolation(false)]
    pub fn move_selection_up(&mut self)
        requires
            old(self).inv(),
        ensures
            final(self).inv(),
            same_but_selection(*old(self), *final(self)),
            selection_stepped(*old(self), *final(self), -1),
    {
        proof {
            if self.json_tree@.len() > 0 {
                lemma_visible_pos(self.nodes(), self.selected_node as int);
            }
        }
        let visible = visible_indices(&self.json_tree);
        if visible.len() > 0 {
            let n = visible.len();
            let mut k: usize = 0;
            while k < n && visible[k] != self.selected_node
                invariant
                    0 <= k <= n,
                    forall|m: int| 0 <= m < k ==> visible@[m] != old(self).selected_node,
                decreases n - k,
            {
                k += 1;
            }
            assert(k < n);
            assert(k as int == visible_pos(self.nodes(), self.selected_node as int));
            if k > 0 {
                self.selected_node = visible[k - 1];
            }
        }
    }

    /// Moves the selection to the next visible node; at the last visible
    /// node it is a no-op, and the selection always stays on a visible
    /// node.
    #[verifier::loop_isolation(false)]
    pub fn move_selection_down(&mut self)
        requires
            old(self).inv(),
        ensures
            final(self).inv(),
            same_but_selection(*old(self), *final(self)),
            selection_stepped(*old(self), *final(self), 1),
    {
        proof {
            if self.json_tree@.len() > 0 {
                lemma_visible_pos(self.nodes(), self.selected_node as int);
            }
        }
        let visible = visible_indices(&self.json_tree);
        if visible.len() > 0 {
            let n = visible.len();
            let mut k: usize = 0;
            while k < n && visible[k] != self.selected_node
                invariant
                    0 <= k <= n,
                    forall|m: int| 0 <= m < k ==> visible@[m] != old(self).selected_node,
                decreases n - k,
            {
                k += 1;
            }
            assert(k < n);
            assert(k as int == visible_pos(self.nodes(), self.selected_node as int));
            if k + 1 < n {
                self.selected_node = visible[k + 1];
            }
        }
    }

    /// Flips the expand flag of the selected node when it is a container;
    /// a no-op on scalars and on an empty tree.  The selection itself
    /// stays put and stays visible: only its descendants appear or
    /// disappear.
    pub fn toggle_node(&mut self)
        requires
            old(self).inv(),
        ensures
            final(self).inv(),
            same_but_tree(*old(self), *final(self)),
            ({
                let t = old(self).nodes();
                let s = old(self).selected_node as int;
                if old(self).selected_node < old(self).json_tree@.len()
                    && t[s].value.is_container() {
                    final(self).nodes() == t.update(
                        s,
                        (NodeV { expanded: !t[s].expanded, ..t[s] }),
                    )
                } else {
                    final(self).json_tree == old(self).json_tree
                }
            }),
    {
        if self.selected_node < self.json_tree.len() {
            let sel = self.selected_node;
            if self.json_tree[sel].value.is_container() {
                let ghost t = self.nodes();
                let ghost s = sel as int;
                let cur = self.json_tree[sel].expanded;
                self.json_tree[sel].expanded = !cur;
                proof {
                    let t2 = self.nodes();
                    assert(t2 =~= t.update(s, (NodeV { expanded: !t[s].expanded, ..t[s] })));
                    lemma_same_structure_toggle(t, t2, s);
                    lemma_shape_carries(t, t2);
                    lemma_toggle_keeps_visible(t, t2, s);
                    match &self.parsed_value {
                        Option::Some(v) => {
                            assert(same_structure(t2, flat_nodes(v@, ""@, 0, "root"@)));
                        },
                        Option::None => {},
                    }
                }
            }
        }
    }

    /// Switches between the raw screen and the tree screen.
    pub fn toggle_view(&mut self)
        ensures
            old(self).inv() ==> final(self).inv(),
            final(self).view_mode == (if old(self).view_mode == ViewMode::Tree {
                ViewMode::Raw
            } else {
                ViewMode::Tree
            }),
            final(self).raw_input == old(self).raw_input,
            final(self).formatted_json == old(self).formatted_json,
            final(self).error_message == old(self).error_message,
            final(self).is_valid == old(self).is_valid,
            final(self).json_tree == old(self).json_tree,
            final(self).selected_node == old(self).selected_node,
            final(self).parsed_value == old(self).parsed_value,
            final(self).needs_terminal_reinit == old(self).needs_terminal_reinit,
            final(self).scroll_offset == old(self).scroll_offset,
    {
        self.view_mode = if self.view_mode == ViewMode::Tree {
            ViewMode::Raw
        } else {
            ViewMode::Tree
        };
    }

    /// Scrolls the raw view one line up; at the top it is a no-op.
    pub fn scroll_up(&mut self)
        ensures
            old(self).inv() ==> final(self).inv(),
            same_but_scroll(*old(self), *final(self)),
            final(self).scroll_offset == (if old(self).scroll_offset > 0 {
                (old(self).scroll_offset - 1) as usize
            } else {
                0usize
            }),
    {
        if self.scroll_offset > 0 {
            self.scroll_offset = self.scroll_offset - 1;
        }
    }

    /// Scrolls the raw view one line down, saturating at the machine
    /// limit.
    pub fn scroll_down(&mut self)
        ensures
            old(self).inv() ==> final(self).inv(),
            same_but_scroll(*old(self), *final(self)),
            final(self).scroll_offset == (if old(self).scroll_offset < usize::MAX {
                (old(self).scroll_offset + 1) as usize
            } else {
                usize::MAX
            }),
    {
        if self.scroll_offset < usize::MAX {
            self.scroll_offset = self.scroll_offset + 1;
        }
    }

    /// One move-up intent: in the tree view the selection steps to the
    /// previous visible node; in the raw view the text scrolls up a line.
    pub fn move_up(&mut self)
        requires
            old(self).inv(),
        ensures
            final(self).inv(),
            old(self).view_mode == ViewMode::Tree ==> same_but_selection(
                *old(self),
                *final(self),
            ) && selection_stepped(*old(self), *final(self), -1),
            old(self).view_mode == ViewMode::Raw ==> same_but_scroll(*old(self), *final(self))
                && final(self).scroll_offset == (if old(self).scroll_offset > 0 {
                (old(self).scroll_offset - 1) as usize
            } else {
                0usize
            }),
    {
        if self.view_mode == ViewMode::Tree {
            self.move_selection_up();
        } else {
            self.scroll_up();
        }
    }

    /// One move-down intent: in the tree view the selection steps to the
    /// next visible node; in the raw view the text scrolls down a line.
    pub fn move_down(&mut self)
        requires
            old(self).inv(),
        ensures
            final(self).inv(),
            old(self).view_mode == ViewMode::Tree ==> same_but_selection(
                *old(self),
                *final(self),
            ) && selection_stepped(*old(self), *final(self), 1),
            old(self).view_mode == ViewMode::Raw ==> same_but_scroll(*old(self), *final(self))
                && final(self).scroll_offset == (if old(self).scroll_offset < usize::MAX {
                (old(self).scroll_offset + 1) as usize
            } else {
                usize::MAX
            }),
    {
        if self.view_mode == ViewMode::Tree {
            self.move_selection_down();
        } else {
            self.scroll_down();
        }
    }

    /// The text a copy request should place on the clipboard: the pretty
    /// text, handed out only while a valid document with non-empty pretty
    /// text is present; nothing otherwise.
    pub fn pretty_for_copy(&self) -> (r: Option<String>)
        ensures
            (if self.is_valid && self.formatted_json@.len() > 0 {
                r matches Option::Some(s) && s@ == self.formatted_json@
            } else {
                r is None
            }),
    {
        if self.is_valid && !self.formatted_json.as_str().is_empty() {
            Option::Some(self.formatted_json.clone())
        } else {
            Option::None
        }
    }

    /// The text a copy-minified request should place on the clipboard:
    /// the minified rendering of the current document.  Without a valid
    /// document nothing is handed out; when the serializer refuses, the
    /// diagnostic is surfaced instead.
    pub fn minified_for_copy(&mut self) -> (r: Option<String>)
        ensures
            old(self).inv() ==> final(self).inv(),
            same_document(*old(self), *final(self)),
            final(self).needs_terminal_reinit == old(self).needs_terminal_reinit,
            (match old(self).parsed_value {
                Option::Some(v) => if old(self).is_valid {
                    match fmt_mini(v@) {
                        Result::Ok(m) => (r matches Option::Some(s) && s@ == m)
                            && final(self).error_message == old(self).error_message,
                        Result::Err(d) => r is None && final(self).error_message@
                            == "Failed to minify JSON: "@ + d,
                    }
                } else {
                    r is None && final(self).error_message == old(self).error_message
                },
                Option::None => r is None && final(self).error_message == old(self).error_message,
            }),
    {
        if self.is_valid {
            let mini = match &self.parsed_value {
                Option::Some(v) => Option::Some(mini_json_text(v)),
                Option::None => Option::None,
            };
            match mini {
                Option::Some(Result::Ok(s)) => Option::Some(s),
                Option::Some(Result::Err(d)) => {
                    self.error_message = prefixed_message(
                        "Failed to minify JSON: ",
                        d.as_str(),
                    );
                    Option::None
                },
                Option::None => Option::None,
            }
        } else {
            Option::None
        }
    }

    /// Decides an externalize or external-edit request: with no text
    /// there is nothing to edit and only the message changes; otherwise
    /// the caller receives a copy of the raw text to write to the
    /// temporary file it creates and watches.
    pub fn request_externalize(&mut self) -> (r: Option<String>)
        ensures
            old(self).inv() ==> final(self).inv(),
            same_document(*old(self), *final(self)),
            final(self).needs_terminal_reinit == old(self).needs_terminal_reinit,
            (if old(self).raw_input@.len() == 0 {
                r is None && final(self).error_message@ == "No JSON content to edit"@
            } else {
                (r matches Option::Some(s) && s@ == old(self).raw_input@)
                    && final(self).error_message == old(self).error_message
            }),
    {
        if self.raw_input.as_str().is_empty() {
            self.error_message = "No JSON content to edit".to_owned();
            Option::None
        } else {
            Option::Some(self.raw_input.clone())
        }
    }

    /// Notes an established edit session: the message names the file and
    /// says it is being watched.
    pub fn note_session_established(&mut self, path: &str)
        ensures
            old(self).inv() ==> final(self).inv(),
            same_document(*old(self), *final(self)),
            final(self).needs_terminal_reinit == old(self).needs_terminal_reinit,
            final(self).error_message@ == "Edit this file: "@ + path@
                + "\nFile is being watched for changes..."@,
    {
        let mut s = "Edit this file: ".to_owned();
        s.append(path);
        s.append("\nFile is being watched for changes...");
        proof {
            assert(s@ =~= "Edit this file: "@ + path@
                + "\nFile is being watched for changes..."@);
        }
        self.error_message = s;
    }

    /// Notes a failure to establish the edit session (the temporary file
    /// or the watch could not be set up): the session is simply absent,
    /// and the diagnostic becomes the message.
    pub fn note_session_failed(&mut self, detail: String)
        ensures
            old(self).inv() ==> final(self).inv(),
            same_document(*old(self), *final(self)),
            final(self).needs_terminal_reinit == old(self).needs_terminal_reinit,
            final(self).error_message@ == detail@,
    {
        self.error_message = detail;
    }

    /// Notes that the pretty text reached the clipboard.
    pub fn note_copied_pretty(&mut self)
        ensures
            old(self).inv() ==> final(self).inv(),
            same_document(*old(self), *final(self)),
            final(self).needs_terminal_reinit == old(self).needs_terminal_reinit,
            final(self).error_message@ == "Copied formatted JSON to clipboard"@,
    {
        self.error_message = "Copied formatted JSON to clipboard".to_owned();
    }

    /// Notes that the minified text reached the clipboard.
    pub fn note_copied_minified(&mut self)
        ensures
            old(self).inv() ==> final(self).inv(),
            same_document(*old(self), *final(self)),
            final(self).needs_terminal_reinit == old(self).needs_terminal_reinit,
            final(self).error_message@ == "Copied minified JSON to clipboard"@,
    {
        self.error_message = "Copied minified JSON to clipboard".to_owned();
    }

    /// Notes that writing to the clipboard failed; the document is kept.
    pub fn note_copy_failed(&mut self, detail: &str)
        ensures
            old(self).inv() ==> final(self).inv(),
            same_document(*old(self), *final(self)),
            final(self).needs_terminal_reinit == old(self).needs_terminal_reinit,
            final(self).error_message@ == "Failed to copy to clipboard: "@ + detail@,
    {
        self.error_message = prefixed_message("Failed to copy to clipboard: ", detail);
    }

    /// Notes that reading the clipboard failed; the document is kept.
    pub fn note_clipboard_get_failed(&mut self, detail: &str)
        ensures
            old(self).inv() ==> final(self).inv(),
            same_document(*old(self), *final(self)),
            final(self).needs_terminal_reinit == old(self).needs_terminal_reinit,
            final(self).error_message@ == "Failed to get clipboard: "@ + detail@,
    {
        self.error_message = prefixed_message("Failed to get clipboard: ", detail);
    }

    /// Notes that the externalized file could not be read back; the
    /// document is kept.
    pub fn note_file_read_failed(&mut self, detail: &str)
        ensures
            old(self).inv() ==> final(self).inv(),
            same_document(*old(self), *final(self)),
            final(self).needs_terminal_reinit == old(self).needs_terminal_reinit,
            final(self).error_message@ == "Failed to read file: "@ + detail@,
    {
        self.error_message = prefixed_message("Failed to read file: ", detail);
    }

    /// Notes that the external editor failed to launch or exited with an
    /// error; the file's content is still reconciled by the caller.
    pub fn note_editor_failed(&mut self)
        ensures
            old(self).inv() ==> final(self).inv(),
            same_document(*old(self), *final(self)),
            final(self).needs_terminal_reinit == old(self).needs_terminal_reinit,
            final(self).error_message@ == "Failed to open Neovim"@,
    {
        self.error_message = "Failed to open Neovim".to_owned();
    }

    /// Flags that the terminal display must be reinitialized exactly once,
    /// after an external program had the terminal.
    pub fn mark_terminal_reinit(&mut self)
        ensures
            old(self).inv() ==> final(self).inv(),
            same_document(*old(self), *final(self)),
            final(self).error_message == old(self).error_message,
            final(self).needs_terminal_reinit,
    {
        self.needs_terminal_reinit = true;
    }

    /// Acknowledges the pending display reinitialization.
    pub fn ack_terminal_reinit(&mut self)
        ensures
            old(self).inv() ==> final(self).inv(),
            same_document(*old(self), *final(self)),
            final(self).error_message == old(self).error_message,
            !final(self).needs_terminal_reinit,
    {
        self.needs_terminal_reinit = false;
    }
}

/// A tree and the same tree with one expand flag rewritten have the same
/// structure.
proof fn lemma_same_structure_toggle(t: Seq<NodeV>, t2: Seq<NodeV>, s: int)
    requires
        0 <= s < t.len(),
        t2 == t.update(s, (NodeV { expanded: !t[s].expanded, ..t[s] })),
    ensures
        same_structure(t, t2),
        same_structure(t2, t),
{
    assert forall|i: int| 0 <= i < t.len() implies (#[trigger] t[i]).key == t2[i].key && t[i].value
        == t2[i].value && t[i].depth == t2[i].depth && t[i].path == t2[i].path by {
        if i != s {
            assert(t2[i] == t[i]);
        }
    }
    assert forall|i: int|
        0 <= i < t2.len() implies (#[trigger] t2[i]).key == t[i].key && t2[i].value == t[i].value
        && t2[i].depth == t[i].depth && t2[i].path == t[i].path by {
        if i != s {
            assert(t2[i] == t[i]);
        }
    }
}

/// Well-shapedness only reads depths and values, so it carries over any
/// change that keeps the structure.
proof fn lemma_shape_carries(t: Seq<NodeV>, t2: Seq<NodeV>)
    requires
        tree_shaped(t),
        same_structure(t, t2),
    ensures
        tree_shaped(t2),
{
    assert forall|i: int| 1 <= i < t2.len() implies 1 <= (#[trigger] t2[i].depth) <= t2[i
        - 1].depth + 1 by {
        assert(t[i].depth == t2[i].depth);
        assert(t[i - 1].depth == t2[i - 1].depth);
    }
    assert forall|i: int|
        0 <= i < t2.len() - 1 && (#[trigger] t2[i + 1].depth) > t2[i].depth implies t2[
        i
    ].value.is_container() by {
        assert(t[i + 1].depth == t2[i + 1].depth);
        assert(t[i].depth == t2[i].depth);
        assert(t[i].value == t2[i].value);
    }
    if t2.len() > 0 {
        assert(t[0].depth == t2[0].depth);
    }
}

/// Rewriting the expand flag of the node at `s` does not change whether
/// `s` itself is visible: visibility reads only the flags of strict
/// ancestors, which all come before `s`.
proof fn lemma_toggle_keeps_visible(t: Seq<NodeV>, t2: Seq<NodeV>, s: int)
    requires
        0 <= s < t.len(),
        t2 == t.update(s, (NodeV { expanded: !t[s].expanded, ..t[s] })),
        visible_at(t, s),
    ensures
        visible_at(t2, s),
{
    assert forall|a: int| #[trigger] is_ancestor(t2, a, s) implies t2[a].expanded by {
        assert forall|k: int| a < k <= s implies (#[trigger] t[k].depth) > t[a].depth by {
            assert(t2[k].depth > t2[a].depth);
            if k != s {
                assert(t2[k] == t[k]);
            }
            if a != s {
                assert(t2[a] == t[a]);
            }
        }
        assert(is_ancestor(t, a, s));
        assert(t[a].expanded);
        assert(t2[a] == t[a]);
    }
}

} // verus!
