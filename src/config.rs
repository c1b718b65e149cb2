//! The configuration data model: snippets, folders of snippets, settings and
//! the user's variables.

use vstd::prelude::*;

use crate::variables::VarNode;

verus! {

/// A single text-expansion snippet.
#[derive(Debug, Clone)]
pub struct Snippet {
    /// The text that activates the snippet; a regular expression when `regex` is set.
    pub trigger: String,
    /// The replacement template.
    pub replace: String,
    /// An optional description.
    pub label: Option<String>,
    /// Carry the case of the typed trigger over to the replacement.
    pub propagate_case: bool,
    /// Place the cursor at the `$|$` marker after expansion.
    pub cursor_position: bool,
    /// Only expand at the start of a word.
    pub word_boundary: bool,
    /// The trigger is a regular expression.
    pub regex: bool,
    /// Applications the snippet is limited to (advisory).
    pub applications: Option<Vec<String>>,
    /// Applications the snippet is kept out of (advisory).
    pub exclude_applications: Option<Vec<String>>,
    /// Whether the snippet takes part in matching.
    pub enabled: bool,
}

fn copy_strings(v: &Vec<String>) -> (r: Vec<String>)
    ensures
        r@ == v@,
{
    let mut out: Vec<String> = Vec::new();
    let mut i: usize = 0;
    while i < v.len()
        invariant
            i <= v.len(),
            out@ == v@.subrange(0, i as int),
        decreases v.len() - i,
    {
        out.push(v[i].clone());
        i += 1;
        assert(out@ =~= v@.subrange(0, i as int));
    }
    assert(out@ =~= v@);
    out
}

fn copy_opt_string(o: &Option<String>) -> (r: Option<String>)
    ensures
        r == *o,
{
    match o {
        Some(s) => Some(s.clone()),
        None => None,
    }
}

fn copy_opt_strings(o: &Option<Vec<String>>) -> (r: Option<Vec<String>>)
    ensures
        r is Some <==> o is Some,
        r is Some ==> r->0@ == o->0@,
{
    match o {
        Some(v) => Some(copy_strings(v)),
        None => None,
    }
}

/// Two snippets that agree on everything the engine reads.
pub open spec fn same_snippet(a: Snippet, b: Snippet) -> bool {
    &&& a.trigger@ == b.trigger@
    &&& a.replace@ == b.replace@
    &&& a.label == b.label
    &&& a.propagate_case == b.propagate_case
    &&& a.cursor_position == b.cursor_position
    &&& a.word_boundary == b.word_boundary
    &&& a.regex == b.regex
    &&& (a.applications is Some <==> b.applications is Some)
    &&& (a.applications is Some ==> a.applications->0@ == b.applications->0@)
    &&& (a.exclude_applications is Some <==> b.exclude_applications is Some)
    &&& (a.exclude_applications is Some ==> a.exclude_applications->0@
        == b.exclude_applications->0@)
    &&& a.enabled == b.enabled
}

impl Snippet {
    /// A snippet with the given trigger and replacement and every option at its default.
    pub fn new(trigger: &str, replace: &str) -> (r: Snippet)
        ensures
            r.trigger@ == trigger@,
            r.replace@ == replace@,
            r.label is None,
            !r.propagate_case,
            !r.cursor_position,
            !r.word_boundary,
            !r.regex,
            r.applications is None,
            r.exclude_applications is None,
            r.enabled,
    {
        Snippet {
            trigger: trigger.to_owned(),
            replace: replace.to_owned(),
            label: None,
            propagate_case: false,
            cursor_position: false,
            word_boundary: false,
            regex: false,
            applications: None,
            exclude_applications: None,
            enabled: true,
        }
    }

    /// A copy of this snippet.
    pub fn duplicate(&self) -> (r: Snippet)
        ensures
            same_snippet(r, *self),
    {
        Snippet {
            trigger: self.trigger.clone(),
            replace: self.replace.clone(),
            label: copy_opt_string(&self.label),
            propagate_case: self.propagate_case,
            cursor_position: self.cursor_position,
            word_boundary: self.word_boundary,
            regex: self.regex,
            applications: copy_opt_strings(&self.applications),
            exclude_applications: copy_opt_strings(&self.exclude_applications),
            enabled: self.enabled,
        }
    }

    /// The snippet with its label set.
    pub fn with_label(self, label: &str) -> (r: Snippet)
        ensures
            r.label is Some && r.label->0@ == label@,
            r == (Snippet { label: r.label, ..self }),
    {
        let mut s = self;
        s.label = Some(label.to_owned());
        s
    }

    /// The snippet with case propagation switched on.
    pub fn with_case_propagation(self) -> (r: Snippet)
        ensures
            r == (Snippet { propagate_case: true, ..self }),
    {
        let mut s = self;
        s.propagate_case = true;
        s
    }

    /// The snippet with cursor placement switched on.
    pub fn with_cursor_position(self) -> (r: Snippet)
        ensures
            r == (Snippet { cursor_position: true, ..self }),
    {
        let mut s = self;
        s.cursor_position = true;
        s
    }

    /// The snippet with the word-boundary requirement switched on.
    pub fn with_word_boundary(self) -> (r: Snippet)
        ensures
            r == (Snippet { word_boundary: true, ..self }),
    {
        let mut s = self;
        s.word_boundary = true;
        s
    }
}

/// A folder of snippets and further folders.
#[derive(Debug)]
pub struct Folder {
    /// The folder's name.
    pub folder: String,
    /// What the folder holds.
    pub items: Vec<SnippetNode>,
    /// A disabled folder hides everything below it.
    pub enabled: bool,
}

/// One entry of the snippet hierarchy.
#[derive(Debug)]
pub enum SnippetNode {
    Folder(Folder),
    Snippet(Snippet),
}

/// The value of `enabled` and `delete_trigger` when the configuration leaves them out.
pub fn default_true() -> (r: bool)
    ensures
        r,
{
    true
}

/// The default delay between synthesized keystrokes, in milliseconds.
pub const DEFAULT_KEYSTROKE_DELAY: u64 = 12;

pub fn default_keystroke_delay() -> (r: u64)
    ensures
        r == DEFAULT_KEYSTROKE_DELAY,
{
    DEFAULT_KEYSTROKE_DELAY
}

/// The name of the default keyboard layout.
pub open spec fn qwerty_name() -> Seq<char> {
    seq!['q', 'w', 'e', 'r', 't', 'y']
}

pub fn default_layout() -> (r: String)
    ensures
        r@ == qwerty_name(),
{
    let r = "qwerty".to_owned();
    proof {
        reveal_strlit("qwerty");
    }
    assert(r@ =~= qwerty_name());
    r
}

/// Global settings.
#[derive(Debug, Clone)]
pub struct Settings {
    /// Play a sound on expansion.
    pub enable_sound: bool,
    /// Show a notification on expansion.
    pub notify_on_expand: bool,
    /// The global switch of the expander.
    pub enabled: bool,
    /// Delete the typed trigger before typing the replacement.
    pub delete_trigger: bool,
    /// Delay between synthesized keystrokes, in milliseconds.
    pub keystroke_delay_ms: u64,
    /// Socket of the input-injection daemon, if not the default one.
    pub ydotool_socket: Option<String>,
    /// Keyboard layout name.
    pub layout: String,
}

/// The settings that a configuration without a `settings` section has.
pub open spec fn is_default_settings(s: Settings) -> bool {
    &&& !s.enable_sound
    &&& !s.notify_on_expand
    &&& s.enabled
    &&& s.delete_trigger
    &&& s.keystroke_delay_ms == DEFAULT_KEYSTROKE_DELAY
    &&& s.ydotool_socket is None
    &&& s.layout@ == qwerty_name()
}

impl Default for Settings {
    fn default() -> (r: Settings)
        ensures
            is_default_settings(r),
    {
        Settings {
            enable_sound: false,
            notify_on_expand: false,
            enabled: default_true(),
            delete_trigger: default_true(),
            keystroke_delay_ms: default_keystroke_delay(),
            ydotool_socket: None,
            layout: default_layout(),
        }
    }
}


/// The whole configuration.
#[derive(Debug)]
pub struct Config {
    pub settings: Settings,
    pub snippets: Vec<SnippetNode>,
    pub variables: VarNode,
}

impl Default for Config {
    fn default() -> (r: Config)
        ensures
            is_default_settings(r.settings),
            r.snippets@.len() == 0,
            r.variables == VarNode::Null,
    {
        Config { settings: Settings::default(), snippets: Vec::new(), variables: VarNode::Null }
    }
}

/// The snippets of a hierarchy, in order, without the disabled snippets and
/// without the contents of disabled folders.
pub open spec fn flatten_nodes(ns: Seq<SnippetNode>) -> Seq<Snippet>
    decreases ns,
{
    if ns.len() == 0 {
        Seq::empty()
    } else {
        let rest = flatten_nodes(ns.drop_last());
        match ns.last() {
            SnippetNode::Snippet(s) => if s.enabled {
                rest.push(s)
            } else {
                rest
            },
            SnippetNode::Folder(f) => if f.enabled {
                rest + flatten_nodes(f.items@)
            } else {
                rest
            },
        }
    }
}

/// Two snippet lists that agree position by position.
pub open spec fn same_snippets(a: Seq<Snippet>, b: Seq<Snippet>) -> bool {
    a.len() == b.len() && forall|i: int| 0 <= i < a.len() ==> same_snippet(#[trigger] a[i], b[i])
}

proof fn lemma_same_concat(a: Seq<Snippet>, b: Seq<Snippet>, c: Seq<Snippet>, d: Seq<Snippet>)
    requires
        same_snippets(a, b),
        same_snippets(c, d),
    ensures
        same_snippets(a + c, b + d),
{
    assert forall|i: int| 0 <= i < (a + c).len() implies same_snippet(#[trigger] (a + c)[i], (b + d)[i]) by {
        if i < a.len() {
            assert(same_snippet(a[i], b[i]));
        } else {
            assert(same_snippet(c[i - a.len()], d[i - a.len()]));
        }
    }
}

fn flatten_recursive(nodes: &Vec<SnippetNode>, result: &mut Vec<Snippet>)
    ensures
        final(result)@.len() >= old(result)@.len(),
        final(result)@.subrange(0, old(result)@.len() as int) == old(result)@,
        same_snippets(
            final(result)@.subrange(old(result)@.len() as int, final(result)@.len() as int),
            flatten_nodes(nodes@),
        ),
    decreases nodes@,
{
    let ghost start = result@.len();
    let mut i: usize = 0;
    assert(nodes@.subrange(0, 0) =~= Seq::<SnippetNode>::empty());
    assert(result@.subrange(start as int, result@.len() as int) =~= Seq::<Snippet>::empty());
    while i < nodes.len()
        invariant
            i <= nodes.len(),
            start == old(result)@.len(),
            start <= result@.len(),
            result@.subrange(0, start as int) == old(result)@,
            same_snippets(
                result@.subrange(start as int, result@.len() as int),
                flatten_nodes(nodes@.subrange(0, i as int)),
            ),
        decreases nodes.len() - i,
    {
        let ghost before = result@;
        let ghost pre = nodes@.subrange(0, i as int);
        let ghost post = nodes@.subrange(0, i + 1);
        assert(post.drop_last() =~= pre);
        assert(post.last() == nodes@[i as int]);
        match &nodes[i] {
            SnippetNode::Snippet(s) => {
                if s.enabled {
                    result.push(s.duplicate());
                    assert(result@.subrange(0, start as int) =~= before.subrange(0, start as int));
                    assert(result@.subrange(start as int, result@.len() as int) =~= before.subrange(
                        start as int,
                        before.len() as int,
                    ).push(result@.last()));
                }
            },
            SnippetNode::Folder(f) => {
                if f.enabled {
                    assert(decreases_to!(nodes@ => nodes@[i as int]));
                    flatten_recursive(&f.items, result);
                    proof {
                        let bl = before.len() as int;
                        assert(result@.subrange(0, bl) == before);
                        assert forall|k: int| 0 <= k < bl implies result@[k] == before[k] by {
                            assert(result@.subrange(0, bl)[k] == result@[k]);
                        }
                        let mid = result@.subrange(start as int, bl);
                        assert(mid =~= before.subrange(start as int, bl));
                        assert(result@.subrange(start as int, result@.len() as int) =~= mid
                            + result@.subrange(bl, result@.len() as int));
                        assert(result@.subrange(0, start as int) =~= before.subrange(0, start as int));
                        lemma_same_concat(
                            mid,
                            flatten_nodes(pre),
                            result@.subrange(bl, result@.len() as int),
                            flatten_nodes(f.items@),
                        );
                    }
                }
            },
        }
        i += 1;
    }
    assert(nodes@.subrange(0, nodes.len() as int) =~= nodes@);
}

/// The enabled snippets of a hierarchy, in order; disabled folders hide all they hold.
pub fn flatten_snippets(nodes: &Vec<SnippetNode>) -> (r: Vec<Snippet>)
    ensures
        same_snippets(r@, flatten_nodes(nodes@)),
{
    let mut result: Vec<Snippet> = Vec::new();
    flatten_recursive(nodes, &mut result);
    assert(result@.subrange(0, result@.len() as int) =~= result@);
    result
}

} // verus!
