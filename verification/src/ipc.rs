//! The windows that the compositor shows.

use std::collections::VecDeque;

use vstd::multiset::Multiset;
use vstd::prelude::*;

use crate::text::{decimal, same, show};
use crate::util::LRegion;

verus! {

/// A window as Sway describes it.
#[derive(Debug)]
pub struct SwayWindow {
    /// Tells the windows of one answer apart.
    pub handle: usize,
    pub id: i64,
    pub name: Option<String>,
    pub pid: Option<i32>,
    pub visible: Option<bool>,
    pub focused: bool,
    pub app_id: Option<String>,
    /// The class among the properties of an X11 window.
    pub class: Option<String>,
    pub rect: LRegion,
    /// The contents, relative to `rect`.
    pub window_rect: LRegion,
}

/// A node of Sway's layout tree.
#[derive(Debug)]
pub struct SwayNode {
    pub window: SwayWindow,
    pub nodes: Vec<SwayNode>,
    /// Ordered from bottom to top.
    pub floating_nodes: Vec<SwayNode>,
}

/// A window as Hyprland describes it.
#[derive(Debug)]
pub struct HyprClient {
    /// Tells the windows of one answer apart.
    pub handle: usize,
    pub stable_id: String,
    pub title: String,
    pub class: String,
    pub pid: i32,
    pub x: i16,
    pub y: i16,
    pub width: i16,
    pub height: i16,
    pub workspace: i32,
    pub floating: bool,
    pub visible: bool,
    pub mapped: bool,
    pub hidden: bool,
    pub accepts_input: bool,
    /// How many windows were focused after this one; zero for the one that has the focus.
    pub focus_history: i32,
}

/// A workspace as Hyprland describes it.
#[derive(Debug)]
pub struct HyprWorkspace {
    pub id: i32,
    pub tiled_layout: String,
}

/// A monitor as Hyprland describes it, in logical pixels.
#[derive(Debug, Clone, Copy, PartialEq, Eq, Structural)]
pub struct HyprMonitor {
    pub region: LRegion,
    pub active_workspace: i32,
}

/// A visible window.
#[derive(Debug)]
pub enum Window {
    Sway(SwayWindow),
    Hypr(HyprClient, LRegion),
}

impl Clone for SwayWindow {
    fn clone(&self) -> (r: Self)
        ensures
            r == *self,
    {
        SwayWindow {
            handle: self.handle,
            id: self.id,
            name: self.name.clone(),
            pid: self.pid,
            visible: self.visible,
            focused: self.focused,
            app_id: self.app_id.clone(),
            class: self.class.clone(),
            rect: self.rect,
            window_rect: self.window_rect,
        }
    }
}

impl Clone for HyprClient {
    fn clone(&self) -> (r: Self)
        ensures
            r == *self,
    {
        HyprClient {
            handle: self.handle,
            stable_id: self.stable_id.clone(),
            title: self.title.clone(),
            class: self.class.clone(),
            pid: self.pid,
            x: self.x,
            y: self.y,
            width: self.width,
            height: self.height,
            workspace: self.workspace,
            floating: self.floating,
            visible: self.visible,
            mapped: self.mapped,
            hidden: self.hidden,
            accepts_input: self.accepts_input,
            focus_history: self.focus_history,
        }
    }
}

impl Clone for Window {
    fn clone(&self) -> (r: Self)
        ensures
            r == *self,
    {
        match self {
            Window::Sway(w) => Window::Sway(w.clone()),
            Window::Hypr(c, region) => Window::Hypr(c.clone(), *region),
        }
    }
}

/// `a` and `b` are both nothing, or text with the same characters.
pub open spec fn same_text(a: Option<&str>, b: Option<String>) -> bool {
    match (a, b) {
        (Some(x), Some(y)) => x@ == y@,
        (None, None) => true,
        _ => false,
    }
}

/// The text, if there is some.
fn text_of(s: &Option<String>) -> (r: Option<&str>)
    ensures
        same_text(r, *s),
{
    match s {
        Some(s) => Some(s.as_str()),
        None => None,
    }
}

impl Window {
    /// The process is known, and the far edges of the region fit in an `i32`.
    pub open spec fn wf(&self) -> bool {
        &&& self matches Window::Sway(w) ==> {
            &&& w.pid is Some
            &&& i32::MIN <= w.rect.x + w.window_rect.x <= i32::MAX
            &&& i32::MIN <= w.rect.y + w.window_rect.y <= i32::MAX
        }
        &&& self.region_spec().fits()
    }

    /// What [`Window::region`] gives.
    pub open spec fn region_spec(&self) -> LRegion {
        match self {
            Window::Sway(w) => LRegion {
                x: (w.rect.x + w.window_rect.x) as i32,
                y: (w.rect.y + w.window_rect.y) as i32,
                width: w.window_rect.width,
                height: w.window_rect.height,
            },
            Window::Hypr(_, region) => *region,
        }
    }

    /// The process that the window belongs to.
    pub open spec fn pid_spec(&self) -> i32 {
        match self {
            Window::Sway(w) => w.pid->0,
            Window::Hypr(c, _) => c.pid,
        }
    }

    /// What [`Window::id`] gives.
    pub open spec fn id_spec(&self) -> Seq<char> {
        match self {
            Window::Sway(w) => decimal(w.id as int),
            Window::Hypr(c, _) => c.stable_id@,
        }
    }

    /// What [`Window::name`] gives.
    pub open spec fn name_spec(&self) -> Option<Seq<char>> {
        match self {
            Window::Sway(w) => match w.name {
                Some(n) => Some(n@),
                None => None,
            },
            Window::Hypr(c, _) => Some(c.title@),
        }
    }

    /// What [`Window::class`] gives.
    pub open spec fn class_spec(&self) -> Option<Seq<char>> {
        match self {
            Window::Sway(w) => match (w.app_id, w.class) {
                (Some(a), _) => Some(a@),
                (None, Some(c)) => Some(c@),
                (None, None) => None,
            },
            Window::Hypr(c, _) => Some(c.class@),
        }
    }

    /// The process that the window belongs to.
    pub fn pid(&self) -> (r: i32)
        requires
            self.wf(),
        ensures
            r == self.pid_spec(),
    {
        match self {
            Window::Sway(w) => w.pid.unwrap(),
            Window::Hypr(c, _) => c.pid,
        }
    }

    /// The identifier that the compositor gives the window.
    pub fn id(&self) -> (r: String)
        ensures
            r@ == self.id_spec(),
    {
        match self {
            Window::Sway(w) => show(w.id),
            Window::Hypr(c, _) => c.stable_id.clone(),
        }
    }

    /// The title.
    pub fn name(&self) -> (r: Option<&str>)
        ensures
            match r {
                Some(n) => self.name_spec() == Some(n@),
                None => self.name_spec() is None,
            },
    {
        match self {
            Window::Sway(w) => text_of(&w.name),
            Window::Hypr(c, _) => Some(c.title.as_str()),
        }
    }

    /// The application: its identifier or, for an X11 window without one, its class.
    pub fn class(&self) -> (r: Option<&str>)
        ensures
            match r {
                Some(c) => self.class_spec() == Some(c@),
                None => self.class_spec() is None,
            },
    {
        match self {
            Window::Sway(w) => match text_of(&w.app_id) {
                Some(a) => Some(a),
                None => text_of(&w.class),
            },
            Window::Hypr(c, _) => Some(c.class.as_str()),
        }
    }

    /// Whether the process is known and the far edges of the region fit in an `i32`.
    pub fn valid(&self) -> (r: bool)
        ensures
            r == self.wf(),
    {
        let region = match self {
            Window::Sway(w) => {
                let x: i64 = w.rect.x as i64 + w.window_rect.x as i64;
                let y: i64 = w.rect.y as i64 + w.window_rect.y as i64;
                if w.pid.is_none() || x < -0x8000_0000 || x > 0x7fff_ffff || y < -0x8000_0000 || y
                    > 0x7fff_ffff {
                    return false;
                }
                LRegion {
                    x: x as i32,
                    y: y as i32,
                    width: w.window_rect.width,
                    height: w.window_rect.height,
                }
            },
            Window::Hypr(_, region) => *region,
        };
        region.in_range()
    }

    /// Where the window's contents are.
    pub fn region(&self) -> (r: LRegion)
        requires
            self.wf(),
        ensures
            r == self.region_spec(),
            r.fits(),
    {
        match self {
            Window::Sway(w) => LRegion {
                x: w.rect.x + w.window_rect.x,
                y: w.rect.y + w.window_rect.y,
                width: w.window_rect.width,
                height: w.window_rect.height,
            },
            Window::Hypr(_, region) => *region,
        }
    }
}

/// A node that waits to be looked at: a whole one, or one whose floating nodes were taken out.
#[derive(Debug)]
pub enum Entry {
    Whole(SwayNode),
    Rest(SwayWindow, Vec<SwayNode>),
}

/// The window is one to choose from.
pub open spec fn shown(w: SwayWindow, active: bool) -> bool {
    &&& w.pid is Some
    &&& w.visible == Some(true)
    &&& active ==> w.focused
}

/// The window, if it is one to choose from.
pub open spec fn emitted(w: SwayWindow, active: bool) -> Seq<SwayWindow> {
    if shown(w, active) {
        seq![w]
    } else {
        Seq::empty()
    }
}

/// The nodes as entries.
pub open spec fn wholes(nodes: Seq<SwayNode>) -> Seq<Entry> {
    Seq::new(nodes.len(), |i: int| Entry::Whole(nodes[i]))
}

/// How many steps a node takes.
pub open spec fn node_weight(n: SwayNode) -> nat
    decreases n,
{
    if n.floating_nodes@.len() > 0 {
        2 + nodes_weight(n.nodes@) + nodes_weight(n.floating_nodes@)
    } else {
        1 + nodes_weight(n.nodes@)
    }
}

/// How many steps nodes take.
pub open spec fn nodes_weight(s: Seq<SwayNode>) -> nat
    decreases s,
{
    if s.len() == 0 {
        0
    } else {
        node_weight(s[0]) + nodes_weight(s.subrange(1, s.len() as int))
    }
}

/// How many steps an entry takes.
pub open spec fn entry_weight(e: Entry) -> nat {
    match e {
        Entry::Whole(n) => node_weight(n),
        Entry::Rest(_, nodes) => 1 + nodes_weight(nodes@),
    }
}

/// How many steps a queue takes.
pub open spec fn queue_weight(q: Seq<Entry>) -> nat
    decreases q.len(),
{
    if q.len() == 0 {
        0
    } else {
        entry_weight(q[0]) + queue_weight(q.drop_first())
    }
}

/// What is left of the queue after its first entry was looked at.
pub open spec fn advanced(q: Seq<Entry>) -> Seq<Entry> {
    let rest = q.drop_first();
    match q[0] {
        Entry::Whole(n) => if n.floating_nodes@.len() > 0 {
            wholes(n.floating_nodes@).reverse() + rest + seq![Entry::Rest(n.window, n.nodes)]
        } else {
            rest + wholes(n.nodes@)
        },
        Entry::Rest(_, nodes) => rest + wholes(nodes@),
    }
}

/// The window that the first entry of the queue gives, if any.
pub open spec fn given(q: Seq<Entry>, active: bool) -> Seq<SwayWindow> {
    match q[0] {
        Entry::Whole(n) => if n.floating_nodes@.len() > 0 {
            Seq::empty()
        } else {
            emitted(n.window, active)
        },
        Entry::Rest(w, _) => emitted(w, active),
    }
}

proof fn lemma_queue_weight_add(a: Seq<Entry>, b: Seq<Entry>)
    ensures
        queue_weight(a + b) == queue_weight(a) + queue_weight(b),
    decreases a.len(),
{
    if a.len() == 0 {
        assert(a + b =~= b);
    } else {
        assert((a + b).drop_first() =~= a.drop_first() + b);
        lemma_queue_weight_add(a.drop_first(), b);
    }
}

proof fn lemma_wholes_weight(s: Seq<SwayNode>)
    ensures
        queue_weight(wholes(s)) == nodes_weight(s),
        queue_weight(wholes(s).reverse()) == nodes_weight(s),
    decreases s.len(),
{
    if s.len() == 0 {
        assert(wholes(s).reverse() =~= wholes(s));
    } else {
        let t = s.subrange(1, s.len() as int);
        lemma_wholes_weight(t);
        assert(wholes(s).drop_first() =~= wholes(t));
        assert(wholes(s).reverse() =~= wholes(t).reverse() + seq![Entry::Whole(s[0])]);
        lemma_queue_weight_add(wholes(t).reverse(), seq![Entry::Whole(s[0])]);
        assert(seq![Entry::Whole(s[0])].drop_first() =~= Seq::<Entry>::empty());
        assert(queue_weight(seq![Entry::Whole(s[0])].drop_first()) == 0);
    }
}

/// Every step leaves less to do.
pub proof fn lemma_advances(q: Seq<Entry>)
    requires
        q.len() > 0,
    ensures
        queue_weight(advanced(q)) == queue_weight(q) - 1,
{
    let rest = q.drop_first();
    match q[0] {
        Entry::Whole(n) => {
            if n.floating_nodes@.len() > 0 {
                let last = seq![Entry::Rest(n.window, n.nodes)];
                lemma_wholes_weight(n.floating_nodes@);
                lemma_queue_weight_add(wholes(n.floating_nodes@).reverse(), rest);
                lemma_queue_weight_add(wholes(n.floating_nodes@).reverse() + rest, last);
                assert(last.drop_first() =~= Seq::<Entry>::empty());
                assert(queue_weight(last.drop_first()) == 0);
            } else {
                lemma_wholes_weight(n.nodes@);
                lemma_queue_weight_add(rest, wholes(n.nodes@));
            }
        },
        Entry::Rest(_, nodes) => {
            lemma_wholes_weight(nodes@);
            lemma_queue_weight_add(rest, wholes(nodes@));
        },
    }
}

/// The windows that a queue gives. Floating nodes go to the front of it, the topmost first, and
/// what they float over to the end.
pub open spec fn swept(q: Seq<Entry>, active: bool) -> Seq<SwayWindow>
    decreases queue_weight(q),
    via swept_ends
{
    if q.len() == 0 {
        Seq::empty()
    } else {
        given(q, active) + swept(advanced(q), active)
    }
}

#[via_fn]
proof fn swept_ends(q: Seq<Entry>, active: bool) {
    if q.len() > 0 {
        lemma_advances(q);
    }
}

/// The windows as windows of either compositor.
pub open spec fn sway_windows(s: Seq<SwayWindow>) -> Seq<Window> {
    Seq::new(s.len(), |i: int| Window::Sway(s[i]))
}

/// The windows that can be chosen from, in the order in which they have to be tried: those on top
/// first. With `active`, only the one that has the focus.
pub fn sway(root: SwayNode, active: bool) -> (r: Vec<Window>)
    ensures
        r@ == sway_windows(swept(seq![Entry::Whole(root)], active)),
{
    let ghost whole = swept(seq![Entry::Whole(root)], active);
    let mut queue: VecDeque<Entry> = VecDeque::new();
    queue.push_back(Entry::Whole(root));
    let mut out: Vec<Window> = Vec::new();
    let ghost mut found: Seq<SwayWindow> = Seq::empty();
    assert(queue@ =~= seq![Entry::Whole(root)]);
    assert(found + swept(queue@, active) =~= whole);
    assert(out@ =~= sway_windows(found));
    loop
        invariant_except_break
            found + swept(queue@, active) == whole,
            out@ == sway_windows(found),
        ensures
            out@ == sway_windows(whole),
        decreases queue_weight(queue@),
    {
        let ghost before = queue@;
        proof {
            if before.len() > 0 {
                lemma_advances(before);
            }
        }
        let (window, nodes) = match queue.pop_front() {
            None => {
                assert(found =~= whole);
                break;
            },
            Some(Entry::Rest(window, nodes)) => (window, nodes),
            Some(Entry::Whole(node)) => {
                let SwayNode { window, nodes, floating_nodes } = node;
                if floating_nodes.len() > 0 {
                    let ghost rest = queue@;
                    let ghost floats = floating_nodes@;
                    for child in iter: floating_nodes
                        invariant
                            iter.seq() == floats,
                            queue@ == wholes(floats.take(iter.index() as int)).reverse() + rest,
                    {
                        let ghost k = iter.index() as int;
                        let ghost now = queue@;
                        queue.push_front(Entry::Whole(child));
                        proof {
                            let next = wholes(floats.take(k + 1)).reverse() + rest;
                            assert(queue@ =~= seq![Entry::Whole(child)] + now);
                            assert(queue@.len() == next.len());
                            assert forall|i: int| 0 <= i < next.len() implies queue@[i]
                                == #[trigger] next[i] by {
                                if i == 0 {
                                    assert(next[0] == wholes(floats.take(k + 1))[k]);
                                } else {
                                    assert(queue@[i] == now[i - 1]);
                                }
                            }
                            assert(queue@ =~= next);
                        }
                    }
                    assert(floats.take(floats.len() as int) =~= floats);
                    queue.push_back(Entry::Rest(window, nodes));
                    proof {
                        assert(queue@ =~= advanced(before));
                        assert(given(before, active) + swept(queue@, active) =~= swept(
                            queue@,
                            active,
                        ));
                    }
                    continue;
                }
                (window, nodes)
            },
        };
        let ghost rest = queue@;
        let ghost children = nodes@;
        assert(queue@ =~= rest + wholes(children.take(0)));
        for child in iter: nodes
            invariant
                iter.seq() == children,
                queue@ == rest + wholes(children.take(iter.index() as int)),
        {
            let ghost k = iter.index() as int;
            queue.push_back(Entry::Whole(child));
            assert(queue@ =~= rest + wholes(children.take(k + 1)));
        }
        assert(children.take(children.len() as int) =~= children);
        assert(queue@ =~= advanced(before));
        let visible: bool = match window.visible {
            Some(v) => v,
            None => false,
        };
        assert(given(before, active) == emitted(window, active));
        if window.pid.is_some() && visible && (!active || window.focused) {
            proof {
                assert(found.push(window) + swept(queue@, active) =~= found + (seq![window] + swept(
                    queue@,
                    active,
                )));
                found = found.push(window);
            }
            let ghost kept = window;
            out.push(Window::Sway(window));
            assert(out@ =~= sway_windows(found));
        } else {
            assert(Seq::<SwayWindow>::empty() + swept(queue@, active) =~= swept(queue@, active));
        }
    }
    out
}

/// The windows to choose from in a node and below it.
pub open spec fn node_bag(n: SwayNode, active: bool) -> Multiset<SwayWindow>
    decreases n,
{
    emitted(n.window, active).to_multiset().add(nodes_bag(n.nodes@, active)).add(
        nodes_bag(n.floating_nodes@, active),
    )
}

/// The windows to choose from in nodes and below them.
pub open spec fn nodes_bag(s: Seq<SwayNode>, active: bool) -> Multiset<SwayWindow>
    decreases s,
{
    if s.len() == 0 {
        Multiset::empty()
    } else {
        node_bag(s[0], active).add(nodes_bag(s.subrange(1, s.len() as int), active))
    }
}

/// The windows to choose from in an entry and below it.
pub open spec fn entry_bag(e: Entry, active: bool) -> Multiset<SwayWindow> {
    match e {
        Entry::Whole(n) => node_bag(n, active),
        Entry::Rest(w, nodes) => emitted(w, active).to_multiset().add(nodes_bag(nodes@, active)),
    }
}

/// The windows to choose from in a queue and below its entries.
pub open spec fn queue_bag(q: Seq<Entry>, active: bool) -> Multiset<SwayWindow>
    decreases q.len(),
{
    if q.len() == 0 {
        Multiset::empty()
    } else {
        entry_bag(q[0], active).add(queue_bag(q.drop_first(), active))
    }
}

proof fn lemma_queue_bag_add(a: Seq<Entry>, b: Seq<Entry>, active: bool)
    ensures
        queue_bag(a + b, active) == queue_bag(a, active).add(queue_bag(b, active)),
    decreases a.len(),
{
    if a.len() == 0 {
        assert(a + b =~= b);
        assert(queue_bag(a, active).add(queue_bag(b, active)) =~= queue_bag(b, active));
    } else {
        assert((a + b).drop_first() =~= a.drop_first() + b);
        lemma_queue_bag_add(a.drop_first(), b, active);
        assert(queue_bag(a + b, active) =~= queue_bag(a, active).add(queue_bag(b, active)));
    }
}

proof fn lemma_single_bag(e: Entry, active: bool)
    ensures
        queue_bag(seq![e], active) == entry_bag(e, active),
{
    assert(seq![e].drop_first() =~= Seq::<Entry>::empty());
    assert(queue_bag(seq![e].drop_first(), active) =~= Multiset::empty());
    assert(queue_bag(seq![e], active) =~= entry_bag(e, active));
}

proof fn lemma_wholes_bag(s: Seq<SwayNode>, active: bool)
    ensures
        queue_bag(wholes(s), active) == nodes_bag(s, active),
        queue_bag(wholes(s).reverse(), active) == nodes_bag(s, active),
    decreases s.len(),
{
    if s.len() == 0 {
        assert(wholes(s).reverse() =~= wholes(s));
    } else {
        let t = s.subrange(1, s.len() as int);
        let first = seq![Entry::Whole(s[0])];
        lemma_wholes_bag(t, active);
        assert(wholes(s).drop_first() =~= wholes(t));
        assert(wholes(s).reverse() =~= wholes(t).reverse() + first);
        lemma_queue_bag_add(wholes(t).reverse(), first, active);
        lemma_single_bag(Entry::Whole(s[0]), active);
        assert(queue_bag(wholes(s).reverse(), active) =~= nodes_bag(s, active));
    }
}

proof fn lemma_step_bag(q: Seq<Entry>, active: bool)
    requires
        q.len() > 0,
    ensures
        queue_bag(q, active) == given(q, active).to_multiset().add(
            queue_bag(advanced(q), active),
        ),
{
    let rest = q.drop_first();
    match q[0] {
        Entry::Whole(n) => {
            if n.floating_nodes@.len() > 0 {
                let floats = wholes(n.floating_nodes@).reverse();
                let last = seq![Entry::Rest(n.window, n.nodes)];
                lemma_wholes_bag(n.floating_nodes@, active);
                lemma_queue_bag_add(floats, rest, active);
                lemma_queue_bag_add(floats + rest, last, active);
                lemma_single_bag(Entry::Rest(n.window, n.nodes), active);
                vstd::seq_lib::to_multiset_len(given(q, active));
                assert(given(q, active).to_multiset() =~= Multiset::empty()) by {
                    vstd::seq_lib::to_multiset_build(given(q, active), n.window);
                }
            } else {
                lemma_wholes_bag(n.nodes@, active);
                lemma_queue_bag_add(rest, wholes(n.nodes@), active);
            }
        },
        Entry::Rest(_, nodes) => {
            lemma_wholes_bag(nodes@, active);
            lemma_queue_bag_add(rest, wholes(nodes@), active);
        },
    }
    assert(queue_bag(q, active) =~= given(q, active).to_multiset().add(
        queue_bag(advanced(q), active),
    ));
}

/// Sweeping a queue gives every window to choose from that is in it, each once, and no other.
pub proof fn sweeping_finds_every_window(q: Seq<Entry>, active: bool)
    ensures
        swept(q, active).to_multiset() == queue_bag(q, active),
    decreases queue_weight(q),
{
    if q.len() == 0 {
        vstd::seq_lib::to_multiset_len(swept(q, active));
        assert(swept(q, active).to_multiset() =~= Multiset::empty());
    } else {
        lemma_advances(q);
        sweeping_finds_every_window(advanced(q), active);
        lemma_step_bag(q, active);
        vstd::seq_lib::lemma_multiset_commutative(given(q, active), swept(advanced(q), active));
    }
}

/// Nothing is below the node.
pub open spec fn is_leaf(n: SwayNode) -> bool {
    n.nodes@.len() == 0 && n.floating_nodes@.len() == 0
}

/// The windows of the nodes themselves, the last node first.
pub open spec fn top_down(s: Seq<SwayNode>, active: bool) -> Seq<SwayWindow>
    decreases s.len(),
{
    if s.len() == 0 {
        Seq::empty()
    } else {
        emitted(s.last().window, active) + top_down(s.drop_last(), active)
    }
}

proof fn lemma_leaves_first(s: Seq<SwayNode>, q: Seq<Entry>, active: bool)
    requires
        forall|i: int| 0 <= i < s.len() ==> is_leaf(#[trigger] s[i]),
    ensures
        swept(wholes(s).reverse() + q, active) == top_down(s, active) + swept(q, active),
    decreases s.len(),
{
    let all = wholes(s).reverse() + q;
    if s.len() == 0 {
        assert(all =~= q);
        assert(top_down(s, active) + swept(q, active) =~= swept(q, active));
    } else {
        let n = s.last();
        let t = s.drop_last();
        assert(is_leaf(n));
        assert(all[0] == Entry::Whole(n)) by {
            assert(wholes(s).reverse()[0] == wholes(s)[s.len() - 1]);
        }
        assert(all.drop_first() =~= wholes(t).reverse() + q);
        assert(wholes(n.nodes@) =~= Seq::<Entry>::empty());
        assert(advanced(all) =~= wholes(t).reverse() + q);
        lemma_leaves_first(t, q, active);
        assert(swept(all, active) =~= top_down(s, active) + swept(q, active));
    }
}

/// The windows that float over a node come before everything else that is still waiting, the
/// topmost first.
pub proof fn floating_windows_come_first(n: SwayNode, q: Seq<Entry>, active: bool)
    requires
        n.floating_nodes@.len() > 0,
        forall|i: int| 0 <= i < n.floating_nodes@.len() ==> is_leaf(#[trigger] n.floating_nodes@[i]),
    ensures
        swept(seq![Entry::Whole(n)] + q, active) == top_down(n.floating_nodes@, active) + swept(
            q + seq![Entry::Rest(n.window, n.nodes)],
            active,
        ),
{
    let all = seq![Entry::Whole(n)] + q;
    let tail = q + seq![Entry::Rest(n.window, n.nodes)];
    assert(all.drop_first() =~= q);
    assert(advanced(all) =~= wholes(n.floating_nodes@).reverse() + tail);
    lemma_leaves_first(n.floating_nodes@, tail, active);
    assert(swept(all, active) =~= swept(advanced(all), active));
}

/// Window `w` is that of the node, or of a node below it.
pub open spec fn holds(n: SwayNode, w: SwayWindow) -> bool
    decreases n,
{
    n.window == w || some_holds(n.nodes@, w) || some_holds(n.floating_nodes@, w)
}

/// Window `w` is that of one of the nodes, or of a node below them.
pub open spec fn some_holds(s: Seq<SwayNode>, w: SwayWindow) -> bool
    decreases s,
{
    s.len() > 0 && (holds(s[0], w) || some_holds(s.subrange(1, s.len() as int), w))
}

/// The window belongs to a process, is visible and, if only the active one is asked for, has the
/// focus.
pub open spec fn eligible(w: SwayWindow, active: bool) -> bool {
    w.pid is Some && w.visible == Some(true) && (active ==> w.focused)
}

proof fn lemma_emitted_bag(w: SwayWindow, active: bool, v: SwayWindow)
    ensures
        emitted(w, active).to_multiset().contains(v) <==> eligible(w, active) && v == w,
        emitted(w, active) == if eligible(w, active) {
            seq![w]
        } else {
            Seq::empty()
        },
{
    broadcast use vstd::multiset::group_multiset_axioms;

    let e = emitted(w, active);
    e.to_multiset_ensures();
    if eligible(w, active) {
        assert(e[0] == w);
        assert(e.contains(v) <==> v == w);
    }
    assert(e.to_multiset().count(v) > 0 <==> e.contains(v));
}

proof fn lemma_node_bag(n: SwayNode, active: bool, w: SwayWindow)
    ensures
        node_bag(n, active).contains(w) <==> eligible(w, active) && holds(n, w),
    decreases n,
{
    broadcast use vstd::multiset::group_multiset_axioms;

    lemma_emitted_bag(n.window, active, w);
    lemma_nodes_bag(n.nodes@, active, w);
    lemma_nodes_bag(n.floating_nodes@, active, w);
}

proof fn lemma_nodes_bag(s: Seq<SwayNode>, active: bool, w: SwayWindow)
    ensures
        nodes_bag(s, active).contains(w) <==> eligible(w, active) && some_holds(s, w),
    decreases s,
{
    broadcast use vstd::multiset::group_multiset_axioms;

    if s.len() > 0 {
        lemma_node_bag(s[0], active, w);
        lemma_nodes_bag(s.subrange(1, s.len() as int), active, w);
    }
}

/// The windows of Sway are those of the tree that belong to a process, are visible and, if only the
/// active one is asked for, have the focus, wherever in the tree they are, and no others.
pub proof fn every_shown_window_is_listed(root: SwayNode, active: bool, w: SwayWindow)
    ensures
        swept(seq![Entry::Whole(root)], active).contains(w) <==> w.pid is Some && w.visible == Some(
            true,
        ) && (active ==> w.focused) && holds(root, w),
{
    let q = seq![Entry::Whole(root)];
    let s = swept(q, active);
    sweeping_finds_every_window(q, active);
    lemma_single_bag(Entry::Whole(root), active);
    lemma_node_bag(root, active, w);
    s.to_multiset_ensures();
    assert(s.to_multiset().count(w) > 0 <==> s.contains(w));
}

/// The windows of the nodes themselves that can be chosen, in the order of the nodes.
pub open spec fn in_order(s: Seq<SwayNode>, active: bool) -> Seq<SwayWindow>
    decreases s.len(),
{
    if s.len() == 0 {
        Seq::empty()
    } else if eligible(s[0].window, active) {
        seq![s[0].window] + in_order(s.drop_first(), active)
    } else {
        in_order(s.drop_first(), active)
    }
}

/// The nodes directly below the nodes, in order.
pub open spec fn next_level(s: Seq<SwayNode>) -> Seq<SwayNode>
    decreases s.len(),
{
    if s.len() == 0 {
        Seq::empty()
    } else {
        s[0].nodes@ + next_level(s.drop_first())
    }
}

/// `q` holds the nodes, whole and in order.
pub open spec fn queued(q: Seq<Entry>, s: Seq<SwayNode>) -> bool {
    q.len() == s.len() && forall|i: int| 0 <= i < s.len() ==> #[trigger] q[i] == Entry::Whole(s[i])
}

proof fn lemma_level(s: Seq<SwayNode>, q: Seq<Entry>, active: bool)
    requires
        forall|i: int| 0 <= i < s.len() ==> (#[trigger] s[i]).floating_nodes@.len() == 0,
    ensures
        swept(wholes(s) + q, active) == in_order(s, active) + swept(
            q + wholes(next_level(s)),
            active,
        ),
    decreases s.len(),
{
    let all = wholes(s) + q;
    if s.len() == 0 {
        assert(all =~= q);
        assert(q + wholes(next_level(s)) =~= q);
        assert(in_order(s, active) + swept(q, active) =~= swept(q, active));
    } else {
        let t = s.drop_first();
        let more = q + wholes(s[0].nodes@);
        assert(all[0] == Entry::Whole(s[0]));
        assert(s[0].floating_nodes@.len() == 0);
        assert(advanced(all) =~= wholes(t) + more);
        lemma_level(t, more, active);
        assert(more + wholes(next_level(t)) =~= q + wholes(next_level(s)));
        lemma_emitted_bag(s[0].window, active, s[0].window);
        assert(swept(all, active) =~= in_order(s, active) + swept(
            q + wholes(next_level(s)),
            active,
        ));
    }
}

/// Windows that nothing floats over come level by level: where `level` holds nodes in order, their
/// own windows come first, then what was already waiting in `rest`, and then what is below the
/// nodes, in order.
pub proof fn levels_come_in_order(
    s: Seq<SwayNode>,
    level: Seq<Entry>,
    rest: Seq<Entry>,
    below: Seq<Entry>,
    active: bool,
)
    requires
        queued(level, s),
        queued(below, next_level(s)),
        forall|i: int| 0 <= i < s.len() ==> (#[trigger] s[i]).floating_nodes@.len() == 0,
    ensures
        swept(level + rest, active) == in_order(s, active) + swept(rest + below, active),
{
    assert(level =~= wholes(s));
    assert(below =~= wholes(next_level(s)));
    lemma_level(s, rest, active);
}

/// What floats comes before everything that is still waiting, the last one first, and what it
/// floats over after all of that: first the window that it floats over itself, then what is below
/// it, in order.
pub proof fn what_is_floated_over_comes_last(
    n: SwayNode,
    floats: Seq<Entry>,
    rest: Seq<Entry>,
    below: Seq<Entry>,
    active: bool,
)
    requires
        n.floating_nodes@.len() > 0,
        queued(floats, n.floating_nodes@),
        queued(below, n.nodes@),
    ensures
        swept(seq![Entry::Whole(n)] + rest, active) == swept(
            floats.reverse() + rest + seq![Entry::Rest(n.window, n.nodes)],
            active,
        ),
        swept(seq![Entry::Rest(n.window, n.nodes)] + rest, active) == (if eligible(n.window, active) {
            seq![n.window]
        } else {
            Seq::empty()
        }) + swept(rest + below, active),
{
    let all = seq![Entry::Whole(n)] + rest;
    let last = seq![Entry::Rest(n.window, n.nodes)] + rest;
    assert(floats =~= wholes(n.floating_nodes@));
    assert(below =~= wholes(n.nodes@));
    assert(all.drop_first() =~= rest);
    assert(advanced(all) =~= floats.reverse() + rest + seq![Entry::Rest(n.window, n.nodes)]);
    assert(swept(all, active) =~= swept(advanced(all), active));
    assert(last.drop_first() =~= rest);
    assert(advanced(last) =~= rest + below);
    lemma_emitted_bag(n.window, active, n.window);
}

/// A client's own region.
pub open spec fn own_region(c: HyprClient) -> LRegion {
    LRegion { x: c.x as i32, y: c.y as i32, width: c.width as i32, height: c.height as i32 }
}

/// The last workspace with this identifier.
pub open spec fn workspace_of(s: Seq<HyprWorkspace>, id: i32) -> Option<HyprWorkspace>
    decreases s.len(),
{
    if s.len() == 0 {
        None
    } else if s.last().id == id {
        Some(s.last())
    } else {
        workspace_of(s.drop_last(), id)
    }
}

/// The first monitor that shows the workspace with this identifier.
pub open spec fn monitor_of(s: Seq<HyprMonitor>, id: i32) -> Option<HyprMonitor>
    decreases s.len(),
{
    if s.len() == 0 {
        None
    } else if s[0].active_workspace == id {
        Some(s[0])
    } else {
        monitor_of(s.drop_first(), id)
    }
}

/// The visible part of a client: nothing for one that cannot be chosen or is on no shown
/// workspace. Tiled windows of a scrolling workspace can be partially or completely offscreen.
pub open spec fn visible_region(
    c: HyprClient,
    workspaces: Seq<HyprWorkspace>,
    monitors: Seq<HyprMonitor>,
    active: bool,
) -> Option<LRegion> {
    if !(c.visible && c.mapped && !c.hidden && c.accepts_input) || (active && c.focus_history != 0) {
        None
    } else {
        match (workspace_of(workspaces, c.workspace), monitor_of(monitors, c.workspace)) {
            (Some(w), Some(m)) => if w.tiled_layout@ == "scrolling"@ && !c.floating {
                own_region(c).shared(m.region)
            } else {
                Some(own_region(c))
            },
            _ => None,
        }
    }
}

/// The clients of one kind that can be chosen, the last one first.
pub open spec fn hypr_windows(
    clients: Seq<HyprClient>,
    workspaces: Seq<HyprWorkspace>,
    monitors: Seq<HyprMonitor>,
    active: bool,
    floating: bool,
) -> Seq<Window>
    decreases clients.len(),
{
    if clients.len() == 0 {
        Seq::empty()
    } else {
        let c = clients.last();
        let rest = hypr_windows(clients.drop_last(), workspaces, monitors, active, floating);
        match visible_region(c, workspaces, monitors, active) {
            Some(r) => if c.floating == floating {
                seq![Window::Hypr(c, r)] + rest
            } else {
                rest
            },
            None => rest,
        }
    }
}

/// The visible clients, in no order.
pub open spec fn visible_bag(
    clients: Seq<HyprClient>,
    workspaces: Seq<HyprWorkspace>,
    monitors: Seq<HyprMonitor>,
    active: bool,
) -> Multiset<Window>
    decreases clients.len(),
{
    if clients.len() == 0 {
        Multiset::empty()
    } else {
        let c = clients.last();
        let rest = visible_bag(clients.drop_last(), workspaces, monitors, active);
        match visible_region(c, workspaces, monitors, active) {
            Some(r) => rest.insert(Window::Hypr(c, r)),
            None => rest,
        }
    }
}

/// Putting the floating clients first loses none and adds none: every visible client is given
/// exactly once.
pub proof fn every_visible_client_is_given(
    clients: Seq<HyprClient>,
    workspaces: Seq<HyprWorkspace>,
    monitors: Seq<HyprMonitor>,
    active: bool,
)
    ensures
        (hypr_windows(clients, workspaces, monitors, active, true) + hypr_windows(
            clients,
            workspaces,
            monitors,
            active,
            false,
        )).to_multiset() == visible_bag(clients, workspaces, monitors, active),
    decreases clients.len(),
{
    broadcast use vstd::multiset::group_multiset_axioms;

    let f = hypr_windows(clients, workspaces, monitors, active, true);
    let t = hypr_windows(clients, workspaces, monitors, active, false);
    vstd::seq_lib::lemma_multiset_commutative(f, t);
    if clients.len() == 0 {
        assert((f + t) =~= Seq::<Window>::empty());
        Seq::<Window>::empty().to_multiset_ensures();
        assert((f + t).to_multiset() =~= Multiset::empty());
    } else {
        let rest = clients.drop_last();
        every_visible_client_is_given(rest, workspaces, monitors, active);
        let fr = hypr_windows(rest, workspaces, monitors, active, true);
        let tr = hypr_windows(rest, workspaces, monitors, active, false);
        vstd::seq_lib::lemma_multiset_commutative(fr, tr);
        match visible_region(clients.last(), workspaces, monitors, active) {
            None => {},
            Some(r) => {
                let w = Window::Hypr(clients.last(), r);
                let one = seq![w];
                assert(one =~= Seq::<Window>::empty().push(w));
                Seq::<Window>::empty().to_multiset_ensures();
                assert(one.to_multiset() =~= Multiset::empty().insert(w));
                vstd::seq_lib::lemma_multiset_commutative(one, fr);
                vstd::seq_lib::lemma_multiset_commutative(one, tr);
                assert((f + t).to_multiset() =~= (fr + tr).to_multiset().insert(w));
            },
        }
    }
}

/// The position of the last workspace with this identifier.
fn find_workspace(s: &Vec<HyprWorkspace>, id: i32) -> (r: Option<usize>)
    ensures
        match r {
            Some(i) => i < s@.len() && workspace_of(s@, id) == Some(s@[i as int]),
            None => workspace_of(s@, id) is None,
        },
{
    let mut i: usize = s.len();
    assert(s@.take(i as int) =~= s@);
    while i > 0
        invariant
            i <= s@.len(),
            workspace_of(s@, id) == workspace_of(s@.take(i as int), id),
        decreases i,
    {
        assert(s@.take(i as int).drop_last() =~= s@.take(i - 1));
        assert(s@.take(i as int).last() == s@[i - 1]);
        if s[i - 1].id == id {
            return Some(i - 1);
        }
        i = i - 1;
    }
    None
}

/// The first monitor that shows the workspace with this identifier.
fn find_monitor(s: &Vec<HyprMonitor>, id: i32) -> (r: Option<HyprMonitor>)
    ensures
        r == monitor_of(s@, id),
{
    let mut i: usize = 0;
    assert(s@.skip(0) =~= s@);
    while i < s.len()
        invariant
            i <= s@.len(),
            monitor_of(s@, id) == monitor_of(s@.skip(i as int), id),
        decreases s@.len() - i,
    {
        assert(s@.skip(i as int)[0] == s@[i as int]);
        assert(s@.skip(i as int).drop_first() =~= s@.skip(i + 1));
        if s[i].active_workspace == id {
            return Some(s[i]);
        }
        i = i + 1;
    }
    None
}

/// The visible part of a client.
fn client_region(
    c: &HyprClient,
    workspaces: &Vec<HyprWorkspace>,
    monitors: &Vec<HyprMonitor>,
    active: bool,
) -> (r: Option<LRegion>)
    requires
        forall|i: int| 0 <= i < monitors@.len() ==> (#[trigger] monitors@[i]).region.fits(),
    ensures
        r == visible_region(*c, workspaces@, monitors@, active),
        r matches Some(region) ==> region.fits(),
{
    if !(c.visible && c.mapped && !c.hidden && c.accepts_input) || (active && c.focus_history != 0) {
        return None;
    }
    let region = LRegion {
        x: c.x as i32,
        y: c.y as i32,
        width: c.width as i32,
        height: c.height as i32,
    };
    let workspace: usize = match find_workspace(workspaces, c.workspace) {
        Some(w) => w,
        None => {
            return None;
        },
    };
    proof {
        lemma_monitor_member(monitors@, c.workspace);
    }
    let monitor = match find_monitor(monitors, c.workspace) {
        Some(m) => m,
        None => {
            return None;
        },
    };
    if same(workspaces[workspace].tiled_layout.as_str(), "scrolling") && !c.floating {
        region.intersect(&monitor.region)
    } else {
        Some(region)
    }
}

proof fn lemma_monitor_member(s: Seq<HyprMonitor>, id: i32)
    ensures
        monitor_of(s, id) matches Some(m) ==> s.contains(m),
    decreases s.len(),
{
    if s.len() > 0 {
        if s[0].active_workspace == id {
            assert(s[0] == s[0]);
        } else {
            lemma_monitor_member(s.drop_first(), id);
            if let Some(m) = monitor_of(s.drop_first(), id) {
                let i = choose|i: int| 0 <= i < s.drop_first().len() && s.drop_first()[i] == m;
                assert(s[i + 1] == m);
            }
        }
    }
}

/// The windows that can be chosen from, in the order in which they have to be tried: floating ones
/// first, and of each kind the last one first. With `active`, only the one that has the focus.
pub fn hyprland(
    clients: Vec<HyprClient>,
    workspaces: &Vec<HyprWorkspace>,
    monitors: &Vec<HyprMonitor>,
    active: bool,
) -> (r: Vec<Window>)
    requires
        forall|i: int| 0 <= i < monitors@.len() ==> (#[trigger] monitors@[i]).region.fits(),
    ensures
        r@ == hypr_windows(clients@, workspaces@, monitors@, active, true) + hypr_windows(
            clients@,
            workspaces@,
            monitors@,
            active,
            false,
        ),
        forall|i: int| 0 <= i < r@.len() ==> (#[trigger] r@[i]).wf(),
{
    let ghost all = clients@;
    let ghost f = hypr_windows(all, workspaces@, monitors@, active, true);
    let ghost t = hypr_windows(all, workspaces@, monitors@, active, false);
    let mut left = clients;
    let mut floating: Vec<Window> = Vec::new();
    let mut tiled: Vec<Window> = Vec::new();
    assert(floating@ + f =~= f && tiled@ + t =~= t);
    loop
        invariant_except_break
            floating@ + hypr_windows(left@, workspaces@, monitors@, active, true) == f,
            tiled@ + hypr_windows(left@, workspaces@, monitors@, active, false) == t,
        invariant
            forall|i: int| 0 <= i < monitors@.len() ==> (#[trigger] monitors@[i]).region.fits(),
            forall|i: int| 0 <= i < floating@.len() ==> (#[trigger] floating@[i]).wf(),
            forall|i: int| 0 <= i < tiled@.len() ==> (#[trigger] tiled@[i]).wf(),
        ensures
            floating@ == f,
            tiled@ == t,
        decreases left@.len(),
    {
        let ghost before = left@;
        let ghost rest = before.drop_last();
        match left.pop() {
            None => {
                assert(floating@ =~= f);
                assert(tiled@ =~= t);
                break;
            },
            Some(client) => {
                let ghost fs = floating@;
                let ghost ts = tiled@;
                let ghost fr = hypr_windows(rest, workspaces@, monitors@, active, true);
                let ghost tr = hypr_windows(rest, workspaces@, monitors@, active, false);
                assert(left@ =~= rest);
                assert(before.last() == client);
                match client_region(&client, workspaces, monitors, active) {
                    None => {},
                    Some(region) => {
                        let ghost w = Window::Hypr(client, region);
                        if client.floating {
                            floating.push(Window::Hypr(client, region));
                            assert(fs.push(w) + fr =~= fs + (seq![w] + fr));
                        } else {
                            tiled.push(Window::Hypr(client, region));
                            assert(ts.push(w) + tr =~= ts + (seq![w] + tr));
                        }
                    },
                }
            },
        }
    }
    floating.append(&mut tiled);
    floating
}

/// Workspace `w` is the last one with this identifier.
pub open spec fn last_workspace(s: Seq<HyprWorkspace>, id: i32, w: int) -> bool {
    &&& 0 <= w < s.len()
    &&& s[w].id == id
    &&& forall|k: int| w < k < s.len() ==> (#[trigger] s[k]).id != id
}

/// Monitor `m` is the first one that shows the workspace with this identifier.
pub open spec fn first_monitor(s: Seq<HyprMonitor>, id: i32, m: int) -> bool {
    &&& 0 <= m < s.len()
    &&& s[m].active_workspace == id
    &&& forall|k: int| 0 <= k < m ==> (#[trigger] s[k]).active_workspace != id
}

/// `r` has pixels, and they are those that `a` and `b` share.
pub open spec fn common_part(r: LRegion, a: LRegion, b: LRegion) -> bool {
    &&& r.width > 0
    &&& r.height > 0
    &&& r.x == a.x || r.x == b.x
    &&& r.x >= a.x && r.x >= b.x
    &&& r.y == a.y || r.y == b.y
    &&& r.y >= a.y && r.y >= b.y
    &&& r.x + r.width == a.x + a.width || r.x + r.width == b.x + b.width
    &&& r.x + r.width <= a.x + a.width && r.x + r.width <= b.x + b.width
    &&& r.y + r.height == a.y + a.height || r.y + r.height == b.y + b.height
    &&& r.y + r.height <= a.y + a.height && r.y + r.height <= b.y + b.height
}

/// The client can be chosen and is shown at `r`: some monitor shows its workspace. A tiled client
/// of a scrolling workspace is shown as far as it is on that monitor, any other where it says.
pub open spec fn client_shown_at(
    c: HyprClient,
    workspaces: Seq<HyprWorkspace>,
    monitors: Seq<HyprMonitor>,
    active: bool,
    r: LRegion,
) -> bool {
    &&& c.visible && c.mapped && !c.hidden && c.accepts_input
    &&& active ==> c.focus_history == 0
    &&& exists|w: int, m: int| #[trigger]
        last_workspace(workspaces, c.workspace, w) && #[trigger] first_monitor(
            monitors,
            c.workspace,
            m,
        ) && if workspaces[w].tiled_layout@ == "scrolling"@ && !c.floating {
            common_part(
                r,
                LRegion {
                    x: c.x as i32,
                    y: c.y as i32,
                    width: c.width as i32,
                    height: c.height as i32,
                },
                monitors[m].region,
            )
        } else {
            r.x == c.x && r.y == c.y && r.width == c.width && r.height == c.height
        }
}

/// A workspace is found whenever there is one, and it is the last one.
pub proof fn workspaces_are_found(s: Seq<HyprWorkspace>, id: i32)
    ensures
        workspace_of(s, id) is None <==> forall|k: int| 0 <= k < s.len() ==> (#[trigger] s[k]).id != id,
        forall|w: int| #[trigger] last_workspace(s, id, w) ==> workspace_of(s, id) == Some(s[w]),
        workspace_of(s, id) is Some ==> exists|w: int| #[trigger] last_workspace(s, id, w),
    decreases s.len(),
{
    if s.len() > 0 {
        let t = s.drop_last();
        workspaces_are_found(t, id);
        if s.last().id == id {
            assert(s[s.len() - 1].id == id);
            assert(last_workspace(s, id, s.len() - 1));
        } else {
            assert forall|w: int| #[trigger] last_workspace(s, id, w) implies workspace_of(s, id)
                == Some(s[w]) by {
                assert forall|k: int| w < k < t.len() implies (#[trigger] t[k]).id != id by {
                    assert(s[k].id != id);
                }
                assert(last_workspace(t, id, w));
            }
            if workspace_of(s, id) is Some {
                let w = choose|w: int| #[trigger] last_workspace(t, id, w);
                assert forall|k: int| w < k < s.len() implies (#[trigger] s[k]).id != id by {
                    if k < t.len() {
                        assert(t[k].id != id);
                    }
                }
                assert(last_workspace(s, id, w));
                assert(s[w].id == id);
            } else {
                assert forall|k: int| 0 <= k < s.len() implies (#[trigger] s[k]).id != id by {
                    if k < t.len() {
                        assert(t[k].id != id);
                    }
                }
            }
        }
    }
}

/// A monitor that shows a workspace is found whenever there is one, at any position, and it is the
/// first one.
pub proof fn monitors_are_found(s: Seq<HyprMonitor>, id: i32)
    ensures
        monitor_of(s, id) is None <==> forall|k: int|
            0 <= k < s.len() ==> (#[trigger] s[k]).active_workspace != id,
        forall|m: int| #[trigger] first_monitor(s, id, m) ==> monitor_of(s, id) == Some(s[m]),
        monitor_of(s, id) is Some ==> exists|m: int| #[trigger] first_monitor(s, id, m),
    decreases s.len(),
{
    if s.len() > 0 {
        let t = s.drop_first();
        monitors_are_found(t, id);
        if s[0].active_workspace == id {
            assert(first_monitor(s, id, 0));
        } else {
            assert forall|m: int| #[trigger] first_monitor(s, id, m) implies monitor_of(s, id)
                == Some(s[m]) by {
                assert forall|k: int| 0 <= k < m - 1 implies (#[trigger] t[k]).active_workspace
                    != id by {
                    assert(s[k + 1].active_workspace != id);
                }
                assert(first_monitor(t, id, m - 1));
            }
            if monitor_of(s, id) is Some {
                let m = choose|m: int| #[trigger] first_monitor(t, id, m);
                assert forall|k: int| 0 <= k < m + 1 implies (#[trigger] s[k]).active_workspace
                    != id by {
                    if k > 0 {
                        assert(t[k - 1].active_workspace != id);
                    }
                }
                assert(s[m + 1] == t[m]);
                assert(first_monitor(s, id, m + 1));
            } else {
                assert forall|k: int| 0 <= k < s.len() implies (#[trigger] s[k]).active_workspace
                    != id by {
                    if k > 0 {
                        assert(t[k - 1].active_workspace != id);
                    }
                }
            }
        }
    }
}

/// A client is shown where it is visible, and nowhere else.
proof fn lemma_client_shown(
    c: HyprClient,
    workspaces: Seq<HyprWorkspace>,
    monitors: Seq<HyprMonitor>,
    active: bool,
)
    requires
        forall|i: int| 0 <= i < monitors.len() ==> (#[trigger] monitors[i]).region.fits(),
    ensures
        visible_region(c, workspaces, monitors, active) matches Some(r) ==> client_shown_at(
            c,
            workspaces,
            monitors,
            active,
            r,
        ),
        forall|r: LRegion| #[trigger]
            client_shown_at(c, workspaces, monitors, active, r) ==> visible_region(
                c,
                workspaces,
                monitors,
                active,
            ) == Some(r),
{
    workspaces_are_found(workspaces, c.workspace);
    monitors_are_found(monitors, c.workspace);
    if let Some(r) = visible_region(c, workspaces, monitors, active) {
        let w = choose|w: int| #[trigger] last_workspace(workspaces, c.workspace, w);
        let m = choose|m: int| #[trigger] first_monitor(monitors, c.workspace, m);
        assert(monitors[m].region.fits());
        assert(last_workspace(workspaces, c.workspace, w) && first_monitor(
            monitors,
            c.workspace,
            m,
        ));
    }
    assert forall|r: LRegion| #[trigger]
        client_shown_at(c, workspaces, monitors, active, r) implies visible_region(
        c,
        workspaces,
        monitors,
        active,
    ) == Some(r) by {
        let (w, m) = choose|w: int, m: int| #[trigger]
            last_workspace(workspaces, c.workspace, w) && #[trigger] first_monitor(
                monitors,
                c.workspace,
                m,
            ) && if workspaces[w].tiled_layout@ == "scrolling"@ && !c.floating {
                common_part(
                    r,
                    LRegion {
                        x: c.x as i32,
                        y: c.y as i32,
                        width: c.width as i32,
                        height: c.height as i32,
                    },
                    monitors[m].region,
                )
            } else {
                r.x == c.x && r.y == c.y && r.width == c.width && r.height == c.height
            };
        assert(monitors[m].region.fits());
        assert(workspace_of(workspaces, c.workspace) == Some(workspaces[w]));
        assert(monitor_of(monitors, c.workspace) == Some(monitors[m]));
    }
}

/// `at` holds the positions of the clients of one kind that `windows` shows, the last one first.
spec fn lists(
    clients: Seq<HyprClient>,
    workspaces: Seq<HyprWorkspace>,
    monitors: Seq<HyprMonitor>,
    active: bool,
    floating: bool,
    windows: Seq<Window>,
    at: Seq<int>,
) -> bool {
    &&& at.len() == windows.len()
    &&& forall|i: int|
        0 <= i < at.len() ==> 0 <= #[trigger] at[i] < clients.len() && clients[at[i]].floating
            == floating && (windows[i] matches Window::Hypr(c, r) && c == clients[at[i]]
            && client_shown_at(c, workspaces, monitors, active, r))
    &&& forall|i: int, j: int| 0 <= i < j < at.len() ==> #[trigger] at[i] > #[trigger] at[j]
    &&& forall|k: int, r: LRegion|
        0 <= k < clients.len() && clients[k].floating == floating && #[trigger] client_shown_at(
            clients[k],
            workspaces,
            monitors,
            active,
            r,
        ) ==> at.contains(k)
}

proof fn lemma_lists(
    clients: Seq<HyprClient>,
    workspaces: Seq<HyprWorkspace>,
    monitors: Seq<HyprMonitor>,
    active: bool,
    floating: bool,
) -> (at: Seq<int>)
    requires
        forall|i: int| 0 <= i < monitors.len() ==> (#[trigger] monitors[i]).region.fits(),
    ensures
        lists(
            clients,
            workspaces,
            monitors,
            active,
            floating,
            hypr_windows(clients, workspaces, monitors, active, floating),
            at,
        ),
    decreases clients.len(),
{
    if clients.len() == 0 {
        Seq::empty()
    } else {
        let c = clients.last();
        let n = clients.len() - 1;
        let t = clients.drop_last();
        let rest = hypr_windows(t, workspaces, monitors, active, floating);
        let tail = lemma_lists(t, workspaces, monitors, active, floating);
        lemma_client_shown(c, workspaces, monitors, active);
        let region = visible_region(c, workspaces, monitors, active);
        let taken = region is Some && c.floating == floating;
        let at = if taken {
            seq![n] + tail
        } else {
            tail
        };
        let windows = hypr_windows(clients, workspaces, monitors, active, floating);
        let shift = if taken {
            1int
        } else {
            0int
        };
        assert forall|i: int| 0 <= i < at.len() implies 0 <= #[trigger] at[i] < clients.len()
            && clients[at[i]].floating == floating && (windows[i] matches Window::Hypr(c, r) && c
            == clients[at[i]] && client_shown_at(c, workspaces, monitors, active, r)) by {
            if i >= shift {
                assert(at[i] == tail[i - shift]);
                assert(windows[i] == rest[i - shift]);
                assert(t[at[i]] == clients[at[i]]);
            }
        }
        assert forall|i: int, j: int| 0 <= i < j < at.len() implies #[trigger] at[i]
            > #[trigger] at[j] by {
            assert(at[j] == tail[j - shift]);
            if i >= shift {
                assert(at[i] == tail[i - shift]);
            }
        }
        assert forall|k: int, r: LRegion|
            0 <= k < clients.len() && clients[k].floating == floating && #[trigger] client_shown_at(
                clients[k],
                workspaces,
                monitors,
                active,
                r,
            ) implies at.contains(k) by {
            if k < n {
                assert(t[k] == clients[k]);
                assert(tail.contains(k));
                let i = choose|i: int| 0 <= i < tail.len() && tail[i] == k;
                assert(at[i + shift] == k);
            } else {
                assert(taken);
                assert(at[0] == k);
            }
        }
        at
    }
}

/// The windows of Hyprland are the clients that can be chosen and whose workspace some monitor
/// shows, each once and no other. Floating ones come first, and of each kind the last one first.
/// `at` holds which client each window is.
pub proof fn every_shown_client_is_listed(
    clients: Seq<HyprClient>,
    workspaces: Seq<HyprWorkspace>,
    monitors: Seq<HyprMonitor>,
    active: bool,
) -> (at: Seq<int>)
    requires
        forall|i: int| 0 <= i < monitors.len() ==> (#[trigger] monitors[i]).region.fits(),
    ensures
        ({
            let windows = hypr_windows(clients, workspaces, monitors, active, true) + hypr_windows(
                clients,
                workspaces,
                monitors,
                active,
                false,
            );
            &&& at.len() == windows.len()
            &&& forall|i: int|
                0 <= i < at.len() ==> 0 <= #[trigger] at[i] < clients.len() && (
                windows[i] matches Window::Hypr(c, r) && c == clients[at[i]] && client_shown_at(
                    c,
                    workspaces,
                    monitors,
                    active,
                    r,
                ))
            &&& forall|i: int, j: int|
                0 <= i < j < at.len() ==> (clients[#[trigger] at[i]].floating
                    && !clients[#[trigger] at[j]].floating) || (clients[at[i]].floating
                    == clients[at[j]].floating && at[i] > at[j])
            &&& forall|k: int, r: LRegion|
                0 <= k < clients.len() && #[trigger] client_shown_at(
                    clients[k],
                    workspaces,
                    monitors,
                    active,
                    r,
                ) ==> at.contains(k)
        }),
{
    let f = hypr_windows(clients, workspaces, monitors, active, true);
    let t = hypr_windows(clients, workspaces, monitors, active, false);
    let a = lemma_lists(clients, workspaces, monitors, active, true);
    let b = lemma_lists(clients, workspaces, monitors, active, false);
    let at = a + b;
    let windows = f + t;
    assert forall|i: int| 0 <= i < at.len() implies 0 <= #[trigger] at[i] < clients.len() && (
    windows[i] matches Window::Hypr(c, r) && c == clients[at[i]] && client_shown_at(
        c,
        workspaces,
        monitors,
        active,
        r,
    )) by {
        if i < a.len() {
            assert(at[i] == a[i] && windows[i] == f[i]);
        } else {
            assert(at[i] == b[i - a.len()] && windows[i] == t[i - a.len()]);
        }
    }
    assert forall|i: int, j: int| 0 <= i < j < at.len() implies (clients[#[trigger] at[i]].floating
        && !clients[#[trigger] at[j]].floating) || (clients[at[i]].floating
        == clients[at[j]].floating && at[i] > at[j]) by {
        if j < a.len() {
            assert(at[i] == a[i] && at[j] == a[j]);
        } else if i < a.len() {
            assert(at[i] == a[i] && at[j] == b[j - a.len()]);
        } else {
            assert(at[i] == b[i - a.len()] && at[j] == b[j - a.len()]);
        }
    }
    assert forall|k: int, r: LRegion|
        0 <= k < clients.len() && #[trigger] client_shown_at(
            clients[k],
            workspaces,
            monitors,
            active,
            r,
        ) implies at.contains(k) by {
        if clients[k].floating {
            let i = choose|i: int| 0 <= i < a.len() && a[i] == k;
            assert(at[i] == k);
        } else {
            let i = choose|i: int| 0 <= i < b.len() && b[i] == k;
            assert(at[i + a.len()] == k);
        }
    }
    at
}

/// What is told of a window is what the compositor says of it. The contents of a window of Sway lie
/// within its own place, and a window without an application identifier goes by its class.
pub proof fn windows_are_described_as_given(w: SwayWindow, c: HyprClient, r: LRegion)
    ensures
        ({
            let s = Window::Sway(w);
            let x = s.region_spec().x as int;
            let y = s.region_spec().y as int;
            &&& i32::MIN <= w.rect.x + w.window_rect.x <= i32::MAX ==> x - w.rect.x
                == w.window_rect.x
            &&& i32::MIN <= w.rect.y + w.window_rect.y <= i32::MAX ==> y - w.rect.y
                == w.window_rect.y
            &&& s.region_spec().width == w.window_rect.width
            &&& s.region_spec().height == w.window_rect.height
            &&& w.pid matches Some(pid) ==> s.pid_spec() == pid
            &&& s.id_spec() == decimal(w.id as int)
            &&& w.name matches Some(n) ==> s.name_spec() == Some(n@)
            &&& w.name is None ==> s.name_spec() is None
            &&& w.app_id matches Some(a) ==> s.class_spec() == Some(a@)
            &&& w.app_id is None ==> (w.class matches Some(k) ==> s.class_spec() == Some(k@))
            &&& w.app_id is None && w.class is None ==> s.class_spec() is None
        }),
        ({
            let h = Window::Hypr(c, r);
            &&& h.region_spec() == r
            &&& h.pid_spec() == c.pid
            &&& h.id_spec() == c.stable_id@
            &&& h.name_spec() == Some(c.title@)
            &&& h.class_spec() == Some(c.class@)
        }),
{
}

/// Which compositors have not answered yet, and which could not be reached.
#[derive(Debug, Clone, Copy, PartialEq, Eq, Structural)]
pub struct Search {
    pub try_hyprland: bool,
    pub try_sway: bool,
    pub hyprland_failed: bool,
    pub sway_failed: bool,
}

/// A compositor.
#[derive(Debug, Clone, Copy, PartialEq, Eq, Structural)]
pub enum Source {
    Hyprland,
    Sway,
}

/// What an answer leads to.
#[derive(Debug)]
pub enum SearchStep {
    /// The windows are known.
    Found(Vec<Window>),
    /// The other compositor has not answered yet.
    Wait,
    /// No compositor could be reached.
    GiveUp,
}

impl Search {
    /// Nothing has answered yet.
    pub fn new() -> (r: Self)
        ensures
            r == (Search {
                try_hyprland: true,
                try_sway: true,
                hyprland_failed: false,
                sway_failed: false,
            }),
    {
        Search { try_hyprland: true, try_sway: true, hyprland_failed: false, sway_failed: false }
    }

    /// One compositor gave its windows, or could not be reached. The first windows that come are
    /// taken.
    pub fn visible_windows(&mut self, source: Source, windows: Option<Vec<Window>>) -> (r: SearchStep)
        ensures
            final(self).try_hyprland == (old(self).try_hyprland && source != Source::Hyprland),
            final(self).try_sway == (old(self).try_sway && source != Source::Sway),
            final(self).hyprland_failed == (old(self).hyprland_failed || (source == Source::Hyprland
                && windows is None)),
            final(self).sway_failed == (old(self).sway_failed || (source == Source::Sway
                && windows is None)),
            r == match windows {
                Some(w) => SearchStep::Found(w),
                None => if final(self).try_hyprland || final(self).try_sway {
                    SearchStep::Wait
                } else {
                    SearchStep::GiveUp
                },
            },
    {
        match source {
            Source::Hyprland => {
                self.try_hyprland = false;
            },
            Source::Sway => {
                self.try_sway = false;
            },
        }
        match windows {
            Some(w) => SearchStep::Found(w),
            None => {
                match source {
                    Source::Hyprland => {
                        self.hyprland_failed = true;
                    },
                    Source::Sway => {
                        self.sway_failed = true;
                    },
                }
                if self.try_hyprland || self.try_sway {
                    SearchStep::Wait
                } else {
                    SearchStep::GiveUp
                }
            },
        }
    }
}

} // verus!
