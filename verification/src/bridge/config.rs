//! The bridge's configuration: `accept` nodes, each a time control with the engine that plays it.
//!
//! The document is held as the nodes the bridge reads: each node's name and entries, and its
//! children's names and entries.

use vstd::prelude::*;

use kdl::{KdlDocument, KdlEntry};

use crate::bridge::controller::AcceptRule;
use crate::text::{chars_of, eq_str, push_str};

verus! {

/// The value of an entry, as far as the bridge reads it.
#[derive(Debug, Clone, PartialEq, Eq)]
pub enum ConfigValue {
    Str(String),
    Int(i128),
    /// A float, a boolean or null.
    Other,
}

/// An entry of a node: a property when it has a name, an argument when it has none.
#[derive(Debug, Clone)]
pub struct ConfigEntry {
    pub name: Option<String>,
    pub value: ConfigValue,
}

/// A child of a top-level node.
#[derive(Debug, Clone)]
pub struct ConfigChild {
    pub name: String,
    pub entries: Vec<ConfigEntry>,
}

/// A top-level node.
#[derive(Debug, Clone)]
pub struct ConfigNode {
    pub name: String,
    pub entries: Vec<ConfigEntry>,
    pub children: Option<Vec<ConfigChild>>,
}

/// The configuration: the time controls that are accepted, in the document's order.
#[derive(Debug, Clone)]
pub struct BridgeConfig {
    pub accept_rules: Vec<AcceptRule>,
}

/// Why a configuration was refused.
#[derive(Debug, Clone, PartialEq, Eq)]
pub enum ConfigError {
    /// An `accept` node has no integer `time` property.
    Time,
    /// An `accept` node has no integer `incr` property.
    Incr,
    /// A `set` child's payload is not JSON.
    SetJson(String),
    /// An `accept` node names no engine.
    Engine,
}

pub enum ValueView {
    Str(Seq<char>),
    Int(i128),
    Other,
}

pub struct EntryView {
    pub name: Option<Seq<char>>,
    pub value: ValueView,
}

pub struct ChildView {
    pub name: Seq<char>,
    pub entries: Seq<EntryView>,
}

pub struct NodeView {
    pub name: Seq<char>,
    pub entries: Seq<EntryView>,
    pub children: Option<Seq<ChildView>>,
}

pub struct RuleView {
    pub time: u64,
    pub incr: i64,
    pub engine_cmd: Seq<char>,
    pub engine_args: Seq<Seq<char>>,
    pub engine_set: Option<Seq<char>>,
}

pub enum ConfigErrorView {
    Time,
    Incr,
    SetJson(Seq<char>),
    Engine,
}

impl View for ConfigValue {
    type V = ValueView;

    open spec fn view(&self) -> ValueView {
        match self {
            ConfigValue::Str(s) => ValueView::Str(s@),
            ConfigValue::Int(i) => ValueView::Int(*i),
            ConfigValue::Other => ValueView::Other,
        }
    }
}

impl View for ConfigEntry {
    type V = EntryView;

    open spec fn view(&self) -> EntryView {
        EntryView {
            name: match self.name {
                Some(s) => Some(s@),
                None => None,
            },
            value: self.value@,
        }
    }
}

pub open spec fn entries_view(v: Seq<ConfigEntry>) -> Seq<EntryView> {
    v.map_values(|e: ConfigEntry| e@)
}

impl View for ConfigChild {
    type V = ChildView;

    open spec fn view(&self) -> ChildView {
        ChildView { name: self.name@, entries: entries_view(self.entries@) }
    }
}

impl View for ConfigNode {
    type V = NodeView;

    open spec fn view(&self) -> NodeView {
        NodeView {
            name: self.name@,
            entries: entries_view(self.entries@),
            children: match self.children {
                Some(v) => Some(v@.map_values(|c: ConfigChild| c@)),
                None => None,
            },
        }
    }
}

impl View for AcceptRule {
    type V = RuleView;

    open spec fn view(&self) -> RuleView {
        RuleView {
            time: self.time,
            incr: self.incr,
            engine_cmd: self.engine_cmd@,
            engine_args: self.engine_args@.map_values(|s: String| s@),
            engine_set: match self.engine_set {
                Some(s) => Some(s@),
                None => None,
            },
        }
    }
}

impl View for ConfigError {
    type V = ConfigErrorView;

    open spec fn view(&self) -> ConfigErrorView {
        match self {
            ConfigError::Time => ConfigErrorView::Time,
            ConfigError::Incr => ConfigErrorView::Incr,
            ConfigError::SetJson(s) => ConfigErrorView::SetJson(s@),
            ConfigError::Engine => ConfigErrorView::Engine,
        }
    }
}

/// Whether `text` is a JSON document, as `serde_json::from_str` reads one.
pub uninterp spec fn json_valid(text: Seq<char>) -> bool;

/// Calls `serde_json::from_str::<serde_json::Value>` on `text`.
///
/// Claimed: the answer depends on the text alone, named `json_valid`; what serde_json accepts
/// is not stated.
#[verifier::external_body]
fn json_is_valid(text: &str) -> (r: bool)
    ensures
        r == json_valid(text@),
{
    serde_json::from_str::<serde_json::Value>(text).is_ok()
}

/// An entry as kdl gives it: its name, its value if a string, its value if an integer.
pub type RawEntry = (Option<String>, Option<String>, Option<i128>);

/// A child node as kdl gives it: its name and entries.
pub type RawChild = (String, Vec<RawEntry>);

/// A top-level node as kdl gives it: its name, entries and children.
pub type RawNode = (String, Vec<RawEntry>, Option<Vec<RawChild>>);

pub open spec fn raw_entry_view(e: RawEntry) -> EntryView {
    EntryView {
        name: opt_view(e.0),
        value: match e.1 {
            Some(s) => ValueView::Str(s@),
            None => match e.2 {
                Some(i) => ValueView::Int(i),
                None => ValueView::Other,
            },
        },
    }
}

pub open spec fn raw_entries_view(v: Seq<RawEntry>) -> Seq<EntryView> {
    v.map_values(|e: RawEntry| raw_entry_view(e))
}

pub open spec fn raw_child_view(c: RawChild) -> ChildView {
    ChildView { name: c.0@, entries: raw_entries_view(c.1@) }
}

pub open spec fn raw_node_view(n: RawNode) -> NodeView {
    NodeView {
        name: n.0@,
        entries: raw_entries_view(n.1@),
        children: match n.2 {
            Some(cs) => Some(cs@.map_values(|c: RawChild| raw_child_view(c))),
            None => None,
        },
    }
}

/// The nodes that kdl reads from `text` (each with its entries, and its children with theirs),
/// or `None` where kdl refuses the text.
pub uninterp spec fn kdl_document(text: Seq<char>) -> Option<Seq<NodeView>>;

/// Calls `str::parse::<kdl::KdlDocument>` (`KdlDocument::from_str`) on `text`, and copies each
/// node's name and entries, and its children's, with `KdlValue::as_string` and
/// `KdlValue::as_integer` of each entry's value.
///
/// Claimed: the result depends on the text alone, named `kdl_document`; what kdl accepts and how
/// it reads a document is not stated.
#[verifier::external_body]
fn kdl_parse(text: &str) -> (r: Option<Vec<RawNode>>)
    ensures
        match kdl_document(text@) {
            None => r is None,
            Some(ns) => r matches Some(v) && v@.map_values(|n: RawNode| raw_node_view(n)) == ns,
        },
{
    let es = |v: &[KdlEntry]| v.iter().map(|e| (e.name().map(|i| i.value().into()), e.value().as_string().map(Into::into), e.value().as_integer())).collect();
    Some(text.parse::<KdlDocument>().ok()?.nodes().iter().map(|n| (
        n.name().value().into(),
        es(n.entries()),
        n.children().map(|d| d.nodes().iter().map(|c| (c.name().value().into(), es(c.entries()))).collect()),
    )).collect())
}

/// Copies of kdl's entries.
fn entries_of_raw(v: &Vec<RawEntry>) -> (r: Vec<ConfigEntry>)
    ensures
        entries_view(r@) == raw_entries_view(v@),
{
    let mut r: Vec<ConfigEntry> = Vec::new();
    let mut i: usize = 0;
    while i < v.len()
        invariant
            i <= v.len(),
            r.len() == i,
            entries_view(r@) == raw_entries_view(v@.take(i as int)),
        decreases v.len() - i,
    {
        let e = &v[i];
        let name = match &e.0 {
            Some(s) => Some(copy_string(s)),
            None => None,
        };
        let value = match &e.1 {
            Some(s) => ConfigValue::Str(copy_string(s)),
            None => match e.2 {
                Some(k) => ConfigValue::Int(k),
                None => ConfigValue::Other,
            },
        };
        let c = ConfigEntry { name, value };
        assert(c@ == raw_entry_view(*e));
        let ghost before = r@;
        r.push(c);
        proof {
            assert(v@.take(i + 1) =~= v@.take(i as int).push(*e));
            assert(entries_view(r@) =~= entries_view(before).push(c@));
            assert(raw_entries_view(v@.take(i + 1)) =~= raw_entries_view(v@.take(i as int)).push(
                raw_entry_view(*e),
            ));
        }
        i += 1;
    }
    assert(v@.take(i as int) =~= v@);
    r
}

/// Copies of kdl's child nodes.
fn children_of_raw(v: &Vec<RawChild>) -> (r: Vec<ConfigChild>)
    ensures
        children_view(r@) == v@.map_values(|c: RawChild| raw_child_view(c)),
{
    let mut r: Vec<ConfigChild> = Vec::new();
    let mut i: usize = 0;
    while i < v.len()
        invariant
            i <= v.len(),
            r.len() == i,
            children_view(r@) == v@.take(i as int).map_values(|c: RawChild| raw_child_view(c)),
        decreases v.len() - i,
    {
        let c = ConfigChild { name: copy_string(&v[i].0), entries: entries_of_raw(&v[i].1) };
        assert(c@ == raw_child_view(v@[i as int]));
        let ghost before = r@;
        r.push(c);
        proof {
            assert(v@.take(i + 1) =~= v@.take(i as int).push(v@[i as int]));
            assert(children_view(r@) =~= children_view(before).push(c@));
            assert(v@.take(i + 1).map_values(|c: RawChild| raw_child_view(c)) =~= v@.take(
                i as int,
            ).map_values(|c: RawChild| raw_child_view(c)).push(raw_child_view(v@[i as int])));
        }
        i += 1;
    }
    assert(v@.take(i as int) =~= v@);
    r
}

/// Copies of kdl's top-level nodes.
fn nodes_of_raw(v: &Vec<RawNode>) -> (r: Vec<ConfigNode>)
    ensures
        nodes_view(r@) == v@.map_values(|n: RawNode| raw_node_view(n)),
{
    let mut r: Vec<ConfigNode> = Vec::new();
    let mut i: usize = 0;
    while i < v.len()
        invariant
            i <= v.len(),
            r.len() == i,
            nodes_view(r@) == v@.take(i as int).map_values(|n: RawNode| raw_node_view(n)),
        decreases v.len() - i,
    {
        let n = &v[i];
        let children = match &n.2 {
            Some(cs) => Some(children_of_raw(cs)),
            None => None,
        };
        let c = ConfigNode { name: copy_string(&n.0), entries: entries_of_raw(&n.1), children };
        assert(c@ == raw_node_view(*n));
        let ghost before = r@;
        r.push(c);
        proof {
            assert(v@.take(i + 1) =~= v@.take(i as int).push(*n));
            assert(nodes_view(r@) =~= nodes_view(before).push(c@));
            assert(v@.take(i + 1).map_values(|n: RawNode| raw_node_view(n)) =~= v@.take(
                i as int,
            ).map_values(|n: RawNode| raw_node_view(n)).push(raw_node_view(*n)));
        }
        i += 1;
    }
    assert(v@.take(i as int) =~= v@);
    r
}

/// The value of the last property named `key`, as `KdlNode::get` with a name finds it./// The value of the last property named `key`, as `KdlNode::get` with a name finds it.
pub open spec fn prop(entries: Seq<EntryView>, key: Seq<char>) -> Option<ValueView>
    decreases entries.len(),
{
    if entries.len() == 0 {
        None
    } else if entries.last().name == Some(key) {
        Some(entries.last().value)
    } else {
        prop(entries.drop_last(), key)
    }
}

/// The first argument, as `KdlNode::get(0)` finds it.
pub open spec fn first_arg(entries: Seq<EntryView>) -> Option<ValueView>
    decreases entries.len(),
{
    if entries.len() == 0 {
        None
    } else if entries[0].name is None {
        Some(entries[0].value)
    } else {
        first_arg(entries.drop_first())
    }
}

/// The string values among `entries`, in order.
pub open spec fn strings(entries: Seq<EntryView>) -> Seq<Seq<char>>
    decreases entries.len(),
{
    if entries.len() == 0 {
        seq![]
    } else {
        let init = strings(entries.drop_last());
        match entries.last().value {
            ValueView::Str(s) => init.push(s),
            _ => init,
        }
    }
}

/// The string values among `entries` after the first.
pub open spec fn rest_strings(entries: Seq<EntryView>) -> Seq<Seq<char>> {
    if entries.len() == 0 {
        seq![]
    } else {
        strings(entries.drop_first())
    }
}

/// What the children of an `accept` node give: the engine command, its arguments and the
/// settings payload.
pub struct Gathered {
    pub cmd: Option<Seq<char>>,
    pub args: Seq<Seq<char>>,
    pub set: Option<Seq<char>>,
}

/// Reading the children in order: in an `engine` child the first entry, if a string, is the
/// command and the other strings are arguments; a `set` child's first argument, if a string,
/// must be JSON and is the payload (the first that is not JSON is the error); later children
/// override earlier ones, and arguments add up.
pub open spec fn gather(children: Seq<ChildView>) -> Result<Gathered, Seq<char>>
    decreases children.len(),
{
    if children.len() == 0 {
        Ok(Gathered { cmd: None, args: seq![], set: None })
    } else {
        match gather(children.drop_last()) {
            Err(e) => Err(e),
            Ok(g) => {
                let c = children.last();
                if c.name == "engine"@ {
                    Ok(
                        Gathered {
                            cmd: if c.entries.len() > 0 && c.entries[0].value is Str {
                                Some(c.entries[0].value->Str_0)
                            } else {
                                g.cmd
                            },
                            args: g.args + rest_strings(c.entries),
                            set: g.set,
                        },
                    )
                } else if c.name == "set"@ {
                    match first_arg(c.entries) {
                        Some(ValueView::Str(v)) => if json_valid(v) {
                            Ok(Gathered { set: Some(v), ..g })
                        } else {
                            Err(v)
                        },
                        _ => Ok(g),
                    }
                } else {
                    Ok(g)
                }
            },
        }
    }
}

/// The rule an `accept` node describes; `time` and `incr` are taken modulo the width of their
/// fields.
pub open spec fn spec_accept_rule(n: NodeView) -> Result<RuleView, ConfigErrorView> {
    match prop(n.entries, "time"@) {
        Some(ValueView::Int(t)) => match prop(n.entries, "incr"@) {
            Some(ValueView::Int(i)) => {
                let g = match n.children {
                    Some(cs) => gather(cs),
                    None => Ok(Gathered { cmd: None, args: seq![], set: None }),
                };
                match g {
                    Err(v) => Err(ConfigErrorView::SetJson(v)),
                    Ok(g) => match g.cmd {
                        None => Err(ConfigErrorView::Engine),
                        Some(cmd) => Ok(
                            RuleView {
                                time: t as u64,
                                incr: i as i64,
                                engine_cmd: cmd,
                                engine_args: g.args,
                                engine_set: g.set,
                            },
                        ),
                    },
                }
            },
            _ => Err(ConfigErrorView::Incr),
        },
        _ => Err(ConfigErrorView::Time),
    }
}

/// The rules of the `accept` nodes, in order; other nodes are ignored. The first node that is
/// refused gives the error.
pub open spec fn spec_config(nodes: Seq<NodeView>) -> Result<Seq<RuleView>, ConfigErrorView>
    decreases nodes.len(),
{
    if nodes.len() == 0 {
        Ok(seq![])
    } else {
        match spec_config(nodes.drop_last()) {
            Err(e) => Err(e),
            Ok(rules) => if nodes.last().name == "accept"@ {
                match spec_accept_rule(nodes.last()) {
                    Err(e) => Err(e),
                    Ok(r) => Ok(rules.push(r)),
                }
            } else {
                Ok(rules)
            },
        }
    }
}

/// Whether `s` is the text `lit`.
pub(crate) fn is_text(s: &String, lit: &str) -> (r: bool)
    ensures
        r == (s@ == lit@),
{
    let cs = chars_of(s.as_str());
    eq_str(&cs, lit)
}

/// A copy of a string.
pub(crate) fn copy_string(s: &String) -> (r: String)
    ensures
        r@ == s@,
{
    let mut r = String::new();
    push_str(&mut r, s.as_str());
    proof {
        assert(Seq::<char>::empty() + s@ =~= s@);
    }
    r
}

/// The value of the last property named `key`.
fn find_prop(entries: &Vec<ConfigEntry>, key: &str) -> (r: Option<ConfigValue>)
    ensures
        match r {
            Some(v) => prop(entries_view(entries@), key@) == Some(v@),
            None => prop(entries_view(entries@), key@) is None,
        },
{
    let ghost ev = entries_view(entries@);
    let mut i = entries.len();
    assert(ev.take(i as int) =~= ev);
    while i > 0
        invariant
            i <= entries.len(),
            ev == entries_view(entries@),
            prop(ev, key@) == prop(ev.take(i as int), key@),
        decreases i,
    {
        let e = &entries[i - 1];
        let ghost t = ev.take(i as int);
        assert(t.last() == e@);
        assert(t.drop_last() =~= ev.take(i - 1));
        match &e.name {
            Some(n) => {
                if is_text(n, key) {
                    return Some(copy_value(&e.value));
                }
            },
            None => {},
        }
        i -= 1;
    }
    None
}

/// The first argument.
fn find_first_arg(entries: &Vec<ConfigEntry>) -> (r: Option<ConfigValue>)
    ensures
        match r {
            Some(v) => first_arg(entries_view(entries@)) == Some(v@),
            None => first_arg(entries_view(entries@)) is None,
        },
{
    let ghost ev = entries_view(entries@);
    let mut i: usize = 0;
    assert(ev.skip(0) =~= ev);
    while i < entries.len()
        invariant
            i <= entries.len(),
            ev == entries_view(entries@),
            first_arg(ev) == first_arg(ev.skip(i as int)),
        decreases entries.len() - i,
    {
        let ghost s = ev.skip(i as int);
        assert(s[0] == entries@[i as int]@);
        assert(s.drop_first() =~= ev.skip(i + 1));
        if entries[i].name.is_none() {
            return Some(copy_value(&entries[i].value));
        }
        i += 1;
    }
    assert(ev.skip(i as int).len() == 0);
    None
}

/// A copy of a value.
fn copy_value(v: &ConfigValue) -> (r: ConfigValue)
    ensures
        r@ == v@,
{
    match v {
        ConfigValue::Str(s) => ConfigValue::Str(copy_string(s)),
        ConfigValue::Int(i) => ConfigValue::Int(*i),
        ConfigValue::Other => ConfigValue::Other,
    }
}

pub open spec fn strings_view(v: Seq<String>) -> Seq<Seq<char>> {
    v.map_values(|s: String| s@)
}

pub open spec fn opt_view(o: Option<String>) -> Option<Seq<char>> {
    match o {
        Some(s) => Some(s@),
        None => None,
    }
}

pub open spec fn children_view(v: Seq<ConfigChild>) -> Seq<ChildView> {
    v.map_values(|c: ConfigChild| c@)
}

/// Appends the string values of `entries` after the first.
fn push_strings(args: &mut Vec<String>, entries: &Vec<ConfigEntry>)
    requires
        entries.len() > 0,
    ensures
        strings_view(final(args)@) == strings_view(old(args)@) + rest_strings(entries_view(entries@)),
{
    let ghost ev = entries_view(entries@);
    let ghost start = strings_view(args@);
    assert(ev.drop_first().take(0) =~= Seq::<EntryView>::empty());
    assert(start + strings(Seq::<EntryView>::empty()) =~= start);
    let mut i: usize = 1;
    while i < entries.len()
        invariant
            1 <= i <= entries.len(),
            ev == entries_view(entries@),
            strings_view(args@) == start + strings(ev.drop_first().take(i - 1)),
        decreases entries.len() - i,
    {
        let ghost t = ev.drop_first().take(i as int);
        assert(t.drop_last() =~= ev.drop_first().take(i - 1));
        assert(t.last() == entries@[i as int]@);
        match &entries[i].value {
            ConfigValue::Str(v) => {
                let c = copy_string(v);
                let ghost before = args@;
                args.push(c);
                assert(strings_view(args@) =~= strings_view(before).push(c@));
                assert(strings_view(args@) =~= start + strings(t));
            },
            _ => {},
        }
        i += 1;
    }
    assert(ev.drop_first().take(i - 1) =~= ev.drop_first());
}

/// The command, arguments and payload that the children give, or the payload that is not JSON.
fn gather_children(children: &Vec<ConfigChild>) -> (r: Result<
    (Option<String>, Vec<String>, Option<String>),
    String,
>)
    ensures
        match r {
            Ok((cmd, args, set)) => gather(children_view(children@)) == Ok::<Gathered, Seq<char>>(
                Gathered { cmd: opt_view(cmd), args: strings_view(args@), set: opt_view(set) },
            ),
            Err(v) => gather(children_view(children@)) == Err::<Gathered, Seq<char>>(v@),
        },
{
    let ghost cv = children_view(children@);
    let mut cmd: Option<String> = None;
    let mut args: Vec<String> = Vec::new();
    let mut set: Option<String> = None;
    assert(strings_view(args@) =~= Seq::<Seq<char>>::empty());
    let mut i: usize = 0;
    while i < children.len()
        invariant
            i <= children.len(),
            cv == children_view(children@),
            gather(cv.take(i as int)) == Ok::<Gathered, Seq<char>>(
                Gathered { cmd: opt_view(cmd), args: strings_view(args@), set: opt_view(set) },
            ),
        decreases children.len() - i,
    {
        let c = &children[i];
        let ghost t = cv.take(i + 1);
        assert(t.drop_last() =~= cv.take(i as int));
        assert(t.last() == c@);
        if is_text(&c.name, "engine") {
            proof {
                reveal_strlit("engine");
            }
            if c.entries.len() > 0 {
                assert(entries_view(c.entries@)[0] == c.entries@[0]@);
                match &c.entries[0].value {
                    ConfigValue::Str(s) => {
                        cmd = Some(copy_string(s));
                    },
                    _ => {},
                }
                push_strings(&mut args, &c.entries);
            } else {
                assert(strings_view(args@) + rest_strings(entries_view(c.entries@)) =~= strings_view(
                    args@,
                ));
            }
        } else if is_text(&c.name, "set") {
            match find_first_arg(&c.entries) {
                Some(ConfigValue::Str(v)) => {
                    if json_is_valid(v.as_str()) {
                        set = Some(v);
                    } else {
                        proof {
                            lemma_gather_err(cv, i + 1);
                        }
                        return Err(v);
                    }
                },
                _ => {},
            }
        }
        i += 1;
    }
    assert(cv.take(i as int) =~= cv);
    Ok((cmd, args, set))
}

/// The rule of one `accept` node.
pub fn accept_rule(n: &ConfigNode) -> (r: Result<AcceptRule, ConfigError>)
    ensures
        match r {
            Ok(rule) => spec_accept_rule(n@) == Ok::<RuleView, ConfigErrorView>(rule@),
            Err(e) => spec_accept_rule(n@) == Err::<RuleView, ConfigErrorView>(e@),
        },
{
    let t = match find_prop(&n.entries, "time") {
        Some(ConfigValue::Int(t)) => t,
        _ => {
            return Err(ConfigError::Time);
        },
    };
    let i = match find_prop(&n.entries, "incr") {
        Some(ConfigValue::Int(i)) => i,
        _ => {
            return Err(ConfigError::Incr);
        },
    };
    let (cmd, args, set) = match &n.children {
        Some(cs) => match gather_children(cs) {
            Ok(g) => g,
            Err(v) => {
                return Err(ConfigError::SetJson(v));
            },
        },
        None => {
            let args: Vec<String> = Vec::new();
            assert(strings_view(args@) =~= Seq::<Seq<char>>::empty());
            (None, args, None)
        },
    };
    match cmd {
        None => Err(ConfigError::Engine),
        Some(c) => {
            let rule = AcceptRule {
                time: #[verifier::truncate] (t as u64),
                incr: #[verifier::truncate] (i as i64),
                engine_cmd: c,
                engine_args: args,
                engine_set: set,
            };
            assert(rule@.engine_args =~= strings_view(args@));
            Ok(rule)
        },
    }
}

pub open spec fn nodes_view(v: Seq<ConfigNode>) -> Seq<NodeView> {
    v.map_values(|n: ConfigNode| n@)
}

pub open spec fn rules_view(v: Seq<AcceptRule>) -> Seq<RuleView> {
    v.map_values(|a: AcceptRule| a@)
}

/// The configuration that a document's nodes describe.
pub fn interpret_config(nodes: &Vec<ConfigNode>) -> (r: Result<BridgeConfig, ConfigError>)
    ensures
        match r {
            Ok(c) => spec_config(nodes_view(nodes@)) == Ok::<Seq<RuleView>, ConfigErrorView>(
                rules_view(c.accept_rules@),
            ),
            Err(e) => spec_config(nodes_view(nodes@)) == Err::<Seq<RuleView>, ConfigErrorView>(e@),
        },
{
    let ghost nv = nodes_view(nodes@);
    let mut rules: Vec<AcceptRule> = Vec::new();
    assert(rules_view(rules@) =~= Seq::<RuleView>::empty());
    let mut k: usize = 0;
    while k < nodes.len()
        invariant
            k <= nodes.len(),
            nv == nodes_view(nodes@),
            spec_config(nv.take(k as int)) == Ok::<Seq<RuleView>, ConfigErrorView>(
                rules_view(rules@),
            ),
        decreases nodes.len() - k,
    {
        let n = &nodes[k];
        let ghost t = nv.take(k + 1);
        assert(t.drop_last() =~= nv.take(k as int));
        assert(t.last() == n@);
        if is_text(&n.name, "accept") {
            match accept_rule(n) {
                Ok(rule) => {
                    let ghost before = rules_view(rules@);
                    rules.push(rule);
                    assert(rules_view(rules@) =~= before.push(rule@));
                },
                Err(e) => {
                    proof {
                        lemma_config_err(nv, k + 1);
                    }
                    return Err(e);
                },
            }
        }
        k += 1;
    }
    assert(nv.take(k as int) =~= nv);
    Ok(BridgeConfig { accept_rules: rules })
}

/// The configuration in the text of a configuration file: `None` where it is not a KDL
/// document, else what its nodes describe.
pub fn parse_config_text(text: &str) -> (r: Option<Result<BridgeConfig, ConfigError>>)
    ensures
        match kdl_document(text@) {
            None => r is None,
            Some(ns) => r matches Some(c) && match c {
                Ok(cfg) => spec_config(ns) == Ok::<Seq<RuleView>, ConfigErrorView>(
                    rules_view(cfg.accept_rules@),
                ),
                Err(e) => spec_config(ns) == Err::<Seq<RuleView>, ConfigErrorView>(e@),
            },
        },
{
    match kdl_parse(text) {
        None => None,
        Some(raw) => {
            let nodes = nodes_of_raw(&raw);
            Some(interpret_config(&nodes))
        },
    }
}

impl ConfigError {
    /// The message shown for this error.
    pub fn message(&self) -> (r: String)
        ensures
            r@ == spec_config_error_message(self@),
    {
        match self {
            ConfigError::Time => "Missing or invalid 'time' property in 'accept' node".to_owned(),
            ConfigError::Incr => "Missing or invalid 'incr' property in 'accept' node".to_owned(),
            ConfigError::SetJson(v) => {
                let mut m = "Failed to parse 'set' json payload: ".to_owned();
                push_str(&mut m, v.as_str());
                m
            },
            ConfigError::Engine => "Missing 'engine' block in 'accept' node".to_owned(),
        }
    }
}

pub open spec fn spec_config_error_message(e: ConfigErrorView) -> Seq<char> {
    match e {
        ConfigErrorView::Time => "Missing or invalid 'time' property in 'accept' node"@,
        ConfigErrorView::Incr => "Missing or invalid 'incr' property in 'accept' node"@,
        ConfigErrorView::SetJson(v) => "Failed to parse 'set' json payload: "@ + v,
        ConfigErrorView::Engine => "Missing 'engine' block in 'accept' node"@,
    }
}

/// Once the children read so far give an error, reading more keeps it.
proof fn lemma_gather_err(cs: Seq<ChildView>, k: int)
    requires
        0 <= k <= cs.len(),
        gather(cs.take(k)) is Err,
    ensures
        gather(cs) == gather(cs.take(k)),
    decreases cs.len() - k,
{
    if k < cs.len() {
        assert(cs.drop_last().take(k) =~= cs.take(k));
        lemma_gather_err(cs.drop_last(), k);
    } else {
        assert(cs.take(k) =~= cs);
    }
}

/// Once the nodes read so far give an error, reading more keeps it.
proof fn lemma_config_err(ns: Seq<NodeView>, k: int)
    requires
        0 <= k <= ns.len(),
        spec_config(ns.take(k)) is Err,
    ensures
        spec_config(ns) == spec_config(ns.take(k)),
    decreases ns.len() - k,
{
    if k < ns.len() {
        assert(ns.drop_last().take(k) =~= ns.take(k));
        lemma_config_err(ns.drop_last(), k);
    } else {
        assert(ns.take(k) =~= ns);
    }
}

} // verus!
