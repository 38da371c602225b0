//! The change detector of the accessibility tree: a hash of every piece of
//! client state the tree is built from.
//!
//! The state the tree reads is laid out as a self-delimiting sequence of
//! 64-bit words (numbers tagged, text as its code points ended by a marker,
//! absent and present values tagged, lists item by item), and those words
//! are hashed. Because the layout is self-delimiting, two states whose tree
//! inputs differ anywhere lay out differently, so a change of any field the
//! tree reads reaches the hash input.

use vstd::prelude::*;
use vstd::string::StringExecFns;
use crate::text::{chars_of, decimal, decimal_chars, push_char, string_from_chars};

verus! {

/// One piece of tree input: a number, a text, an absent or present value,
/// or a list of pieces.
pub enum Val {
    Num(u64),
    Text(Seq<char>),
    Absent,
    Present(Box<Val>),
    List(Seq<Val>),
}

/// The words of a text: 1 and the code point for each character, then 0.
pub open spec fn enc_text(s: Seq<char>) -> Seq<u64>
    decreases s.len(),
{
    if s.len() == 0 {
        seq![0u64]
    } else {
        seq![1u64, (s[0] as u32) as u64] + enc_text(s.drop_first())
    }
}

/// The words of a piece of tree input.
pub open spec fn enc_val(v: Val) -> Seq<u64>
    decreases v,
{
    match v {
        Val::Num(x) => seq![0u64, x],
        Val::Text(s) => seq![1u64] + enc_text(s),
        Val::Absent => seq![2u64],
        Val::Present(b) => seq![3u64] + enc_val(*b),
        Val::List(xs) => seq![4u64] + enc_items(xs),
    }
}

/// The words of the items of a list: each item after a 1, then 0.
pub open spec fn enc_items(xs: Seq<Val>) -> Seq<u64>
    decreases xs,
{
    if xs.len() == 0 {
        seq![0u64]
    } else {
        seq![1u64] + enc_val(xs[0]) + enc_items(xs.drop_first())
    }
}

proof fn lemma_text_prefix_free(a: Seq<char>, b: Seq<char>, r1: Seq<u64>, r2: Seq<u64>)
    requires
        enc_text(a) + r1 == enc_text(b) + r2,
    ensures
        a == b,
        r1 == r2,
    decreases a.len(),
{
    let ea = enc_text(a);
    let eb = enc_text(b);
    assert((ea + r1)[0] == (eb + r2)[0]);
    if a.len() == 0 {
        if b.len() > 0 {
            assert(eb[0] == 1u64);
        }
        assert(r1 =~= (ea + r1).drop_first());
        assert(r2 =~= (eb + r2).drop_first());
    } else {
        if b.len() == 0 {
            assert(ea[0] == 1u64);
            assert(false);
        }
        assert((ea + r1)[1] == (eb + r2)[1]);
        assert(ea[1] == (a[0] as u32) as u64);
        assert(eb[1] == (b[0] as u32) as u64);
        assert((a[0] as u32) == (b[0] as u32));
        vstd::utf8::char_u32_cast(a[0], a[0] as u32);
        vstd::utf8::char_u32_cast(b[0], b[0] as u32);
        assert(a[0] == b[0]);
        assert(enc_text(a.drop_first()) + r1 =~= (ea + r1).subrange(2, (ea + r1).len() as int));
        assert(enc_text(b.drop_first()) + r2 =~= (eb + r2).subrange(2, (eb + r2).len() as int));
        lemma_text_prefix_free(a.drop_first(), b.drop_first(), r1, r2);
        assert(a =~= seq![a[0]] + a.drop_first());
        assert(b =~= seq![b[0]] + b.drop_first());
    }
}

/// The layout is self-delimiting: a piece's words followed by anything
/// determine the piece and what follows.
pub proof fn lemma_val_prefix_free(a: Val, b: Val, r1: Seq<u64>, r2: Seq<u64>)
    requires
        enc_val(a) + r1 == enc_val(b) + r2,
    ensures
        a == b,
        r1 == r2,
    decreases a,
{
    let ea = enc_val(a);
    let eb = enc_val(b);
    assert((ea + r1)[0] == (eb + r2)[0]);
    assert((ea + r1).drop_first() == (eb + r2).drop_first());
    match a {
        Val::Num(x) => {
            match b {
                Val::Num(y) => {
                    assert((ea + r1)[1] == (eb + r2)[1]);
                    assert(r1 =~= (ea + r1).subrange(2, (ea + r1).len() as int));
                    assert(r2 =~= (eb + r2).subrange(2, (eb + r2).len() as int));
                },
                _ => {},
            }
        },
        Val::Text(s) => {
            match b {
                Val::Text(t) => {
                    assert(enc_text(s) + r1 =~= (ea + r1).drop_first());
                    assert(enc_text(t) + r2 =~= (eb + r2).drop_first());
                    lemma_text_prefix_free(s, t, r1, r2);
                },
                _ => {},
            }
        },
        Val::Absent => {
            match b {
                Val::Absent => {
                    assert(r1 =~= (ea + r1).drop_first());
                    assert(r2 =~= (eb + r2).drop_first());
                },
                _ => {},
            }
        },
        Val::Present(x) => {
            match b {
                Val::Present(y) => {
                    assert(enc_val(*x) + r1 =~= (ea + r1).drop_first());
                    assert(enc_val(*y) + r2 =~= (eb + r2).drop_first());
                    lemma_val_prefix_free(*x, *y, r1, r2);
                },
                _ => {},
            }
        },
        Val::List(xs) => {
            match b {
                Val::List(ys) => {
                    assert(enc_items(xs) + r1 =~= (ea + r1).drop_first());
                    assert(enc_items(ys) + r2 =~= (eb + r2).drop_first());
                    lemma_items_prefix_free(xs, ys, r1, r2);
                },
                _ => {},
            }
        },
    }
}

proof fn lemma_items_prefix_free(xs: Seq<Val>, ys: Seq<Val>, r1: Seq<u64>, r2: Seq<u64>)
    requires
        enc_items(xs) + r1 == enc_items(ys) + r2,
    ensures
        xs == ys,
        r1 == r2,
    decreases xs,
{
    let ea = enc_items(xs);
    let eb = enc_items(ys);
    assert((ea + r1)[0] == (eb + r2)[0]);
    if xs.len() == 0 {
        if ys.len() > 0 {
            assert(eb[0] == 1u64);
        }
        assert(r1 =~= (ea + r1).drop_first());
        assert(r2 =~= (eb + r2).drop_first());
    } else {
        if ys.len() == 0 {
            assert(ea[0] == 1u64);
            assert(false);
        }
        let ra = enc_items(xs.drop_first()) + r1;
        let rb = enc_items(ys.drop_first()) + r2;
        assert(enc_val(xs[0]) + ra =~= (ea + r1).drop_first());
        assert(enc_val(ys[0]) + rb =~= (eb + r2).drop_first());
        assert(decreases_to!(xs => xs[0]));
        lemma_val_prefix_free(xs[0], ys[0], ra, rb);
        lemma_items_prefix_free(xs.drop_first(), ys.drop_first(), r1, r2);
        assert(xs =~= seq![xs[0]] + xs.drop_first());
        assert(ys =~= seq![ys[0]] + ys.drop_first());
    }
}

/// Different pieces of tree input lay out differently.
pub proof fn lemma_enc_val_injective(a: Val, b: Val)
    requires
        enc_val(a) == enc_val(b),
    ensures
        a == b,
{
    assert(enc_val(a) + Seq::<u64>::empty() =~= enc_val(b) + Seq::<u64>::empty());
    lemma_val_prefix_free(a, b, Seq::empty(), Seq::empty());
}


/// The words of the items of a list without the closing 0.
pub open spec fn open_items(xs: Seq<Val>) -> Seq<u64>
    decreases xs.len(),
{
    if xs.len() == 0 {
        Seq::empty()
    } else {
        seq![1u64] + enc_val(xs[0]) + open_items(xs.drop_first())
    }
}

proof fn lemma_items_close(xs: Seq<Val>)
    ensures
        enc_items(xs) == open_items(xs) + seq![0u64],
    decreases xs.len(),
{
    if xs.len() > 0 {
        lemma_items_close(xs.drop_first());
        assert(enc_items(xs) =~= open_items(xs) + seq![0u64]);
    } else {
        assert(enc_items(xs) =~= open_items(xs) + seq![0u64]);
    }
}

proof fn lemma_open_items_push(xs: Seq<Val>, x: Val)
    ensures
        open_items(xs.push(x)) == open_items(xs) + seq![1u64] + enc_val(x),
    decreases xs.len(),
{
    if xs.len() == 0 {
        assert(xs.push(x).drop_first() =~= Seq::<Val>::empty());
        assert(xs.push(x)[0] == x);
        assert(open_items(xs.push(x).drop_first()) == Seq::<u64>::empty());
        assert(open_items(xs.push(x)) == seq![1u64] + enc_val(x) + open_items(xs.push(x).drop_first()));
        assert(open_items(xs.push(x)) =~= open_items(xs) + seq![1u64] + enc_val(x));
    } else {
        assert(xs.push(x).drop_first() =~= xs.drop_first().push(x));
        assert(xs.push(x)[0] == xs[0]);
        lemma_open_items_push(xs.drop_first(), x);
        assert(open_items(xs.push(x)) == seq![1u64] + enc_val(xs[0]) + open_items(xs.drop_first().push(x)));
        assert(open_items(xs.push(x)) =~= open_items(xs) + seq![1u64] + enc_val(x));
    }
}

/// A list under construction: `out` holds `start`, the list's opening word
/// and the items `done`.
pub open spec fn building(out: Seq<u64>, start: Seq<u64>, done: Seq<Val>) -> bool {
    out == start + seq![4u64] + open_items(done)
}

proof fn lemma_building_push(out: Seq<u64>, start: Seq<u64>, done: Seq<Val>, x: Val)
    requires
        building(out, start, done),
    ensures
        building(out + seq![1u64] + enc_val(x), start, done.push(x)),
{
    lemma_open_items_push(done, x);
    assert(out + seq![1u64] + enc_val(x) =~= start + seq![4u64] + open_items(done.push(x)));
}

proof fn lemma_building_close(out: Seq<u64>, start: Seq<u64>, done: Seq<Val>)
    requires
        building(out, start, done),
    ensures
        out + seq![0u64] == start + enc_val(Val::List(done)),
{
    lemma_items_close(done);
    assert(out + seq![0u64] =~= start + enc_val(Val::List(done)));
}

fn push_num(out: &mut Vec<u64>, x: u64)
    ensures
        final(out)@ == old(out)@ + enc_val(Val::Num(x)),
{
    out.push(0);
    out.push(x);
    assert(out@ =~= old(out)@ + enc_val(Val::Num(x)));
}

proof fn lemma_enc_text_push(s: Seq<char>, c: char)
    ensures
        enc_text(s.push(c)) == enc_text(s).drop_last() + seq![1u64, (c as u32) as u64, 0u64],
    decreases s.len(),
{
    if s.len() == 0 {
        assert(s.push(c).drop_first() =~= Seq::<char>::empty());
        assert(s.push(c)[0] == c);
        assert(enc_text(s.push(c).drop_first()) == seq![0u64]);
        assert(enc_text(s.push(c)) == seq![1u64, (c as u32) as u64] + enc_text(s.push(c).drop_first()));
        assert(enc_text(s.push(c)) =~= enc_text(s).drop_last() + seq![1u64, (c as u32) as u64, 0u64]);
    } else {
        assert(s.push(c).drop_first() =~= s.drop_first().push(c));
        assert(s.push(c)[0] == s[0]);
        lemma_enc_text_push(s.drop_first(), c);
        lemma_enc_text_ends(s.drop_first());
        assert(enc_text(s.push(c)) == seq![1u64, (s[0] as u32) as u64] + enc_text(s.drop_first().push(c)));
        assert(enc_text(s.push(c)) =~= enc_text(s).drop_last() + seq![1u64, (c as u32) as u64, 0u64]);
    }
}

fn push_text(out: &mut Vec<u64>, s: &str)
    ensures
        final(out)@ == old(out)@ + enc_val(Val::Text(s@)),
{
    let v = chars_of(s);
    out.push(1);
    let ghost base = out@;
    let mut i: usize = 0;
    while i < v.len()
        invariant
            i <= v@.len(),
            out@ == base + enc_text(v@.take(i as int)).drop_last(),
        decreases v@.len() - i,
    {
        let c = v[i];
        out.push(1);
        out.push(c as u32 as u64);
        proof {
            assert(v@.take(i + 1) =~= v@.take(i as int).push(c));
            lemma_enc_text_push(v@.take(i as int), c);
            assert(out@ =~= base + enc_text(v@.take(i + 1)).drop_last());
        }
        i = i + 1;
    }
    proof {
        assert(v@.take(v@.len() as int) =~= v@);
        assert(enc_text(v@).len() > 0) by {
            if v@.len() > 0 {
            }
        }
        let e = enc_text(v@);
        assert(e.last() == 0u64) by {
            lemma_enc_text_ends(v@);
        }
    }
    out.push(0);
    proof {
        let e = enc_text(v@);
        assert(e =~= e.drop_last() + seq![0u64]);
        assert(out@ =~= old(out)@ + enc_val(Val::Text(s@)));
    }
}

proof fn lemma_enc_text_ends(s: Seq<char>)
    ensures
        enc_text(s).len() > 0,
        enc_text(s).last() == 0u64,
    decreases s.len(),
{
    if s.len() > 0 {
        lemma_enc_text_ends(s.drop_first());
    }
}


// ---- The state the tree reads ----

/// An in-progress text edit: the buffer, the caret and the IME preedit.
pub struct TextEdit {
    pub buffer: String,
    pub cursor: u64,
    pub preedit: String,
}

/// How a keybinding is being edited, if at all.
pub enum KeyEditing {
    Off,
    Record,
    Text(TextEdit),
}

/// What the tree reads of a pane.
pub struct PaneSummary {
    pub id: u32,
    pub title: String,
    pub cwd: Option<String>,
    pub cursor_col: u16,
    pub cursor_row: u16,
    pub scrollback_len: u64,
    pub scroll_offset: u64,
}

/// What the tree reads of the close-window dialog.
pub struct CloseDialogSummary {
    pub message: String,
    pub kill_label: String,
    pub cancel_label: String,
    pub selected_button: u64,
}

/// One context-menu item: its label and its shortcut hint.
pub struct MenuItemSummary {
    pub label: String,
    pub hint: Option<String>,
}

/// What the tree reads of the context menu.
pub struct ContextMenuSummary {
    pub items: Vec<MenuItemSummary>,
    pub hovered: Option<u64>,
}

/// What the tree reads of a picker (command palette, host manager, macro
/// picker): whether it is open, its query and its selection.
pub struct PickerSummary {
    pub is_open: bool,
    pub query: String,
    pub selected: u64,
}

/// Two texts: a profile's name and icon, a keybinding's key and action, or a
/// quick-select match's label and text.
pub struct TextPair {
    pub first: String,
    pub second: String,
}

/// An SSH host of the settings panel.
#[derive(Clone, Debug)]
pub struct SshHostEntry {
    pub name: String,
    pub host: String,
    pub port: u16,
    pub username: String,
    pub auth_type: String,
}

/// Where an SSH host connects: `user@host`, or the host alone without a
/// user, then `:port` unless the port is 22.
pub open spec fn ssh_endpoint(h: SshHostEntry) -> Seq<char> {
    (if h.username@.len() == 0 {
        h.host@
    } else {
        h.username@ + seq!['@'] + h.host@
    }) + if h.port == 22 {
        Seq::<char>::empty()
    } else {
        seq![':'] + decimal(h.port as nat)
    }
}

/// The label of an SSH host: `name (endpoint)`, or the endpoint alone when
/// the host has no name.
pub open spec fn ssh_label(h: SshHostEntry) -> Seq<char> {
    if h.name@.len() == 0 {
        ssh_endpoint(h)
    } else {
        h.name@ + seq![' ', '('] + ssh_endpoint(h) + seq![')']
    }
}

impl SshHostEntry {
    /// The host's label, as listed in the settings panel.
    pub fn label(&self) -> (r: String)
        ensures
            r@ == ssh_label(*self),
    {
        let mut ep = String::new();
        if !self.username.as_str().is_empty() {
            ep.append(self.username.as_str());
            push_char(&mut ep, '@');
        }
        ep.append(self.host.as_str());
        if self.port != 22 {
            push_char(&mut ep, ':');
            let digits = decimal_chars(self.port as u64);
            ep.append(string_from_chars(&digits).as_str());
        }
        assert(ep@ =~= ssh_endpoint(*self));
        if self.name.as_str().is_empty() {
            ep
        } else {
            let mut r = self.name.clone();
            push_char(&mut r, ' ');
            push_char(&mut r, '(');
            r.append(ep.as_str());
            push_char(&mut r, ')');
            assert(r@ =~= ssh_label(*self));
            r
        }
    }
}

/// What the tree reads of the settings panel. Floating-point settings are
/// carried by their bit patterns; the cursor style and present mode by their
/// configuration keys; the category by its label.
pub struct SettingsSummary {
    pub is_open: bool,
    pub category: String,
    pub font_family: String,
    pub font_family_editing: bool,
    pub font_size_bits: u32,
    pub opacity_bits: u32,
    pub scheme_index: u64,
    pub language_index: u64,
    pub auto_check_update: bool,
    pub focused_widget_index: u64,
    pub cursor_style: String,
    pub present_mode: String,
    pub padding_x: u64,
    pub padding_y: u64,
    pub selected_profile: u64,
    pub active_profile_index: Option<u64>,
    pub profiles: Vec<TextPair>,
    pub selected_host_index: u64,
    pub ssh_hosts: Vec<SshHostEntry>,
    pub ssh_field_editing: Option<TextEdit>,
    pub ssh_delete_dialog_open: bool,
    pub ssh_delete_dialog_confirm_focused: bool,
    pub selected_key_index: u64,
    pub keybindings: Vec<TextPair>,
    pub key_delete_dialog_open: bool,
    pub key_delete_dialog_confirm_focused: bool,
    pub leader_key: String,
    pub leader_key_editing: Option<TextEdit>,
    pub key_editing: KeyEditing,
}

/// What the tree reads of quick select.
pub struct QuickSelectSummary {
    pub is_active: bool,
    pub typed_label: String,
    pub matches: Vec<TextPair>,
}

/// An info bar: its slot, the message it shows (none for the offline bar,
/// whose elapsed time is not read), and whether it was dismissed.
pub struct InfoBarSummary {
    pub slot: u64,
    pub message: Option<String>,
    pub dismissed: bool,
}

/// A screen-reader alert: its sequence number and kind.
pub struct AlertSummary {
    pub seq: u64,
    pub kind: u64,
}

/// Everything the accessibility tree is built from.
pub struct TreeState {
    pub tab_order: Vec<u32>,
    pub focused_pane_id: Option<u32>,
    pub panes: Vec<PaneSummary>,
    pub close_dialog: Option<CloseDialogSummary>,
    pub context_menu: Option<ContextMenuSummary>,
    pub palette: PickerSummary,
    pub host_manager: PickerSummary,
    pub macro_picker: PickerSummary,
    pub settings: SettingsSummary,
    pub quick_select: QuickSelectSummary,
    pub info_bars: Vec<InfoBarSummary>,
    pub alerts: Vec<AlertSummary>,
}

// ---- As tree input ----

pub open spec fn flag(b: bool) -> Val {
    Val::Num(if b { 1 } else { 0 })
}

pub open spec fn text(s: String) -> Val {
    Val::Text(s@)
}

pub open spec fn opt_text(o: Option<String>) -> Val {
    match o {
        Some(t) => Val::Present(Box::new(Val::Text(t@))),
        None => Val::Absent,
    }
}

pub open spec fn opt_num(o: Option<u64>) -> Val {
    match o {
        Some(x) => Val::Present(Box::new(Val::Num(x))),
        None => Val::Absent,
    }
}

pub open spec fn pane_val(p: PaneSummary) -> Val {
    Val::List(
        seq![
            Val::Num(p.id as u64),
            text(p.title),
            opt_text(p.cwd),
            Val::Num(p.cursor_col as u64),
            Val::Num(p.cursor_row as u64),
            Val::Num(p.scrollback_len),
            Val::Num(p.scroll_offset),
        ],
    )
}

pub open spec fn edit_val(e: TextEdit) -> Val {
    Val::List(seq![text(e.buffer), Val::Num(e.cursor), text(e.preedit)])
}

pub open spec fn opt_edit_val(o: Option<TextEdit>) -> Val {
    match o {
        Some(e) => Val::Present(Box::new(edit_val(e))),
        None => Val::Absent,
    }
}

pub open spec fn key_editing_val(k: KeyEditing) -> Val {
    match k {
        KeyEditing::Off => Val::Num(0),
        KeyEditing::Record => Val::Num(1),
        KeyEditing::Text(e) => Val::Present(Box::new(edit_val(e))),
    }
}

pub open spec fn close_dialog_val(o: Option<CloseDialogSummary>) -> Val {
    match o {
        Some(d) => Val::Present(
            Box::new(
                Val::List(
                    seq![text(d.message), text(d.kill_label), text(d.cancel_label), Val::Num(d.selected_button)],
                ),
            ),
        ),
        None => Val::Absent,
    }
}

pub open spec fn menu_item_val(i: MenuItemSummary) -> Val {
    Val::List(seq![text(i.label), opt_text(i.hint)])
}

pub open spec fn context_menu_val(o: Option<ContextMenuSummary>) -> Val {
    match o {
        Some(m) => Val::Present(
            Box::new(
                Val::List(
                    seq![Val::List(m.items@.map_values(|i: MenuItemSummary| menu_item_val(i))), opt_num(m.hovered)],
                ),
            ),
        ),
        None => Val::Absent,
    }
}

pub open spec fn picker_val(p: PickerSummary) -> Val {
    if p.is_open {
        Val::Present(Box::new(Val::List(seq![text(p.query), Val::Num(p.selected)])))
    } else {
        Val::Absent
    }
}

pub open spec fn pair_val(p: TextPair) -> Val {
    Val::List(seq![text(p.first), text(p.second)])
}

pub open spec fn pairs_val(ps: Seq<TextPair>) -> Val {
    Val::List(ps.map_values(|p: TextPair| pair_val(p)))
}

pub open spec fn ssh_host_val(h: SshHostEntry) -> Val {
    Val::List(seq![text(h.name), text(h.host), Val::Num(h.port as u64), text(h.username), text(h.auth_type)])
}

/// The settings panel's display fields.
pub open spec fn settings_head_val(p: SettingsSummary) -> Val {
    Val::List(seq![
        text(p.category),
        text(p.font_family),
        flag(p.font_family_editing),
        Val::Num(p.font_size_bits as u64),
        Val::Num(p.opacity_bits as u64),
        Val::Num(p.scheme_index),
        Val::Num(p.language_index),
        flag(p.auto_check_update),
        Val::Num(p.focused_widget_index),
        text(p.cursor_style),
        text(p.present_mode),
        Val::Num(p.padding_x),
        Val::Num(p.padding_y),
        Val::Num(p.selected_profile)
    ])
}

/// The settings panel's profile, host and keybinding fields.
pub open spec fn settings_tail_val(p: SettingsSummary) -> Val {
    Val::List(seq![
        opt_num(p.active_profile_index),
        pairs_val(p.profiles@),
        Val::Num(p.selected_host_index),
        Val::List(p.ssh_hosts@.map_values(|h: SshHostEntry| ssh_host_val(h))),
        opt_edit_val(p.ssh_field_editing),
        flag(p.ssh_delete_dialog_open),
        flag(p.ssh_delete_dialog_confirm_focused),
        Val::Num(p.selected_key_index),
        pairs_val(p.keybindings@),
        flag(p.key_delete_dialog_open),
        flag(p.key_delete_dialog_confirm_focused),
        text(p.leader_key),
        opt_edit_val(p.leader_key_editing),
        key_editing_val(p.key_editing)
    ])
}

pub open spec fn settings_val(p: SettingsSummary) -> Val {
    if p.is_open {
        Val::Present(Box::new(Val::List(seq![settings_head_val(p), settings_tail_val(p)])))
    } else {
        Val::Absent
    }
}

pub open spec fn quick_select_val(q: QuickSelectSummary) -> Val {
    if q.is_active {
        Val::Present(Box::new(Val::List(seq![text(q.typed_label), pairs_val(q.matches@)])))
    } else {
        Val::Absent
    }
}

pub open spec fn bar_val(b: InfoBarSummary) -> Val {
    Val::List(seq![Val::Num(b.slot), opt_text(b.message)])
}

/// The bars still shown (not dismissed), in stack order.
pub open spec fn live_bars(bars: Seq<InfoBarSummary>) -> Seq<Val>
    decreases bars.len(),
{
    if bars.len() == 0 {
        Seq::empty()
    } else if bars.last().dismissed {
        live_bars(bars.drop_last())
    } else {
        live_bars(bars.drop_last()).push(bar_val(bars.last()))
    }
}

pub open spec fn alert_val(a: AlertSummary) -> Val {
    Val::List(seq![Val::Num(a.seq), Val::Num(a.kind)])
}

/// The first pane with id `id`.
pub open spec fn find_pane(panes: Seq<PaneSummary>, id: u32) -> Option<PaneSummary>
    decreases panes.len(),
{
    if panes.len() == 0 {
        None
    } else if panes[0].id == id {
        Some(panes[0])
    } else {
        find_pane(panes.drop_first(), id)
    }
}

/// The least id in `ids` that is at least `lo`.
pub open spec fn least_from(ids: Seq<u32>, lo: int) -> Option<u32>
    decreases ids.len(),
{
    if ids.len() == 0 {
        None
    } else {
        let rest = least_from(ids.drop_first(), lo);
        if ids[0] >= lo && (rest is None || ids[0] < rest->0) {
            Some(ids[0])
        } else {
            rest
        }
    }
}

/// `least_from` finds the least id from `lo` up, when there is one.
pub proof fn lemma_least_from(ids: Seq<u32>, lo: int)
    ensures
        least_from(ids, lo) matches Some(m) ==> m >= lo && ids.contains(m),
        least_from(ids, lo) is None ==> forall|i: int| 0 <= i < ids.len() ==> ids[i] < lo,
        least_from(ids, lo) matches Some(m) ==> forall|i: int| 0 <= i < ids.len() && ids[i] >= lo ==> m <= ids[i],
    decreases ids.len(),
{
    if ids.len() > 0 {
        lemma_least_from(ids.drop_first(), lo);
        assert forall|i: int| 0 < i < ids.len() implies ids[i] == ids.drop_first()[i - 1] by {}
        if let Some(m) = least_from(ids.drop_first(), lo) {
            let j = choose|j: int| 0 <= j < ids.drop_first().len() && ids.drop_first()[j] == m;
            assert(ids[j + 1] == m);
        }
        if least_from(ids, lo) == Some(ids[0]) {
            assert(ids[0] == ids[0]);
        }
    }
}

/// The distinct ids of `ids` from `lo` up, in ascending order.
pub open spec fn ascending_from(ids: Seq<u32>, lo: int) -> Seq<u32>
    decreases 0x1_0000_0000 - lo,
{
    if lo < 0 || lo > 0xffff_ffff {
        Seq::empty()
    } else {
        match least_from(ids, lo) {
            Some(m) => {
                proof {
                    lemma_least_from(ids, lo);
                }
                seq![m] + ascending_from(ids, m + 1)
            },
            None => Seq::empty(),
        }
    }
}

/// The order in which the panes are read: the tab order, or, without one,
/// the pane ids in ascending order.
pub open spec fn pane_order(s: TreeState) -> Seq<u32> {
    if s.tab_order@.len() == 0 {
        ascending_from(ids_of(s.panes@), 0)
    } else {
        s.tab_order@
    }
}

/// The panes read, in order: those of `order` that exist.
pub open spec fn panes_in_order(panes: Seq<PaneSummary>, order: Seq<u32>) -> Seq<Val>
    decreases order.len(),
{
    if order.len() == 0 {
        Seq::empty()
    } else {
        let rest = panes_in_order(panes, order.drop_last());
        match find_pane(panes, order.last()) {
            Some(p) => rest.push(pane_val(p)),
            None => rest,
        }
    }
}

/// The focused pane, as tree input.
pub open spec fn focused_val(o: Option<u32>) -> Val {
    match o {
        Some(id) => Val::Present(Box::new(Val::Num(id as u64))),
        None => Val::Absent,
    }
}

/// A list of ids, as tree input.
pub open spec fn ids_val(v: Seq<u32>) -> Val {
    Val::List(v.map_values(|id: u32| Val::Num(id as u64)))
}

/// The tabs and panes, as tree input: the tab order, the focused pane and
/// the panes in reading order.
pub open spec fn base_val(s: TreeState) -> Val {
    Val::List(
        seq![
            ids_val(s.tab_order@),
            focused_val(s.focused_pane_id),
            Val::List(panes_in_order(s.panes@, pane_order(s))),
        ],
    )
}

/// The overlays, bars and alerts, as tree input.
pub open spec fn overlay_val(s: TreeState) -> Val {
    Val::List(
        seq![
            close_dialog_val(s.close_dialog),
            context_menu_val(s.context_menu),
            picker_val(s.palette),
            picker_val(s.host_manager),
            picker_val(s.macro_picker),
            settings_val(s.settings),
            quick_select_val(s.quick_select),
            Val::List(live_bars(s.info_bars@)),
            Val::List(s.alerts@.map_values(|a: AlertSummary| alert_val(a))),
        ],
    )
}

/// Every piece of state the accessibility tree reads, as tree input.
pub open spec fn tree_val(s: TreeState) -> Val {
    Val::List(seq![base_val(s), overlay_val(s)])
}

/// The words hashed to detect a change of the tree's input.
pub open spec fn spec_tree_hash_input(s: TreeState) -> Seq<u64> {
    enc_val(tree_val(s))
}

/// The hash input determines every piece of state the tree reads: two
/// states with the same input agree on all of it, so a change of any field
/// the tree reads changes the input.
pub proof fn lemma_tree_input_determines_state(a: TreeState, b: TreeState)
    requires
        spec_tree_hash_input(a) == spec_tree_hash_input(b),
    ensures
        tree_val(a) == tree_val(b),
{
    lemma_enc_val_injective(tree_val(a), tree_val(b));
}

/// No two panes share an id.
pub open spec fn distinct_ids(panes: Seq<PaneSummary>) -> bool {
    forall|i: int, j: int| 0 <= i < j < panes.len() ==> panes[i].id != panes[j].id
}

/// The same panes, in any order.
pub open spec fn same_panes(x: Seq<PaneSummary>, y: Seq<PaneSummary>) -> bool {
    forall|p: PaneSummary| x.contains(p) <==> y.contains(p)
}

proof fn lemma_find_pane(panes: Seq<PaneSummary>, id: u32)
    ensures
        find_pane(panes, id) matches Some(p) ==> panes.contains(p) && p.id == id,
        find_pane(panes, id) is None ==> forall|i: int| 0 <= i < panes.len() ==> panes[i].id != id,
    decreases panes.len(),
{
    if panes.len() > 0 {
        lemma_find_pane(panes.drop_first(), id);
        assert forall|i: int| 0 < i < panes.len() implies panes[i] == panes.drop_first()[i - 1] by {}
        if let Some(p) = find_pane(panes.drop_first(), id) {
            if panes[0].id != id {
                let j = choose|j: int| 0 <= j < panes.drop_first().len() && panes.drop_first()[j] == p;
                assert(panes[j + 1] == p);
            }
        }
        if panes[0].id == id {
            assert(panes.contains(panes[0]));
        }
    }
}

/// With distinct ids, the pane found for `id` is the one listed with it.
proof fn lemma_find_listed(panes: Seq<PaneSummary>, q: PaneSummary)
    requires
        distinct_ids(panes),
        panes.contains(q),
    ensures
        find_pane(panes, q.id) == Some(q),
{
    lemma_find_pane(panes, q.id);
    let j = choose|j: int| 0 <= j < panes.len() && panes[j] == q;
    if let Some(p) = find_pane(panes, q.id) {
        let i = choose|i: int| 0 <= i < panes.len() && panes[i] == p;
        if i != j {
            if i < j {
                assert(panes[i].id != panes[j].id);
            } else {
                assert(panes[j].id != panes[i].id);
            }
        }
    } else {
        assert(panes[j].id != q.id);
    }
}

/// The same panes with distinct ids are found alike, whatever their order.
proof fn lemma_same_panes_found_alike(x: Seq<PaneSummary>, y: Seq<PaneSummary>, id: u32)
    requires
        distinct_ids(x),
        distinct_ids(y),
        same_panes(x, y),
    ensures
        find_pane(x, id) == find_pane(y, id),
{
    lemma_find_pane(x, id);
    lemma_find_pane(y, id);
    match find_pane(x, id) {
        Some(p) => {
            assert(y.contains(p));
            lemma_find_listed(y, p);
        },
        None => {
            if let Some(q) = find_pane(y, id) {
                assert(x.contains(q));
                let j = choose|j: int| 0 <= j < x.len() && x[j] == q;
                assert(x[j].id != id);
            }
        },
    }
}

proof fn lemma_least_from_alike(a: Seq<u32>, b: Seq<u32>, lo: int)
    requires
        forall|x: u32| a.contains(x) <==> b.contains(x),
    ensures
        least_from(a, lo) == least_from(b, lo),
{
    lemma_least_from(a, lo);
    lemma_least_from(b, lo);
    match least_from(a, lo) {
        Some(m) => {
            assert(b.contains(m));
            let j = choose|j: int| 0 <= j < b.len() && b[j] == m;
            match least_from(b, lo) {
                Some(n) => {
                    assert(a.contains(n));
                    let i = choose|i: int| 0 <= i < a.len() && a[i] == n;
                    assert(m <= a[i]);
                    assert(n <= b[j]);
                },
                None => {
                    assert(b[j] < lo);
                },
            }
        },
        None => {
            if let Some(n) = least_from(b, lo) {
                assert(a.contains(n));
                let i = choose|i: int| 0 <= i < a.len() && a[i] == n;
                assert(a[i] < lo);
            }
        },
    }
}

proof fn lemma_ascending_alike(a: Seq<u32>, b: Seq<u32>, lo: int)
    requires
        forall|x: u32| a.contains(x) <==> b.contains(x),
    ensures
        ascending_from(a, lo) == ascending_from(b, lo),
    decreases 0x1_0000_0000 - lo,
{
    if !(lo < 0 || lo > 0xffff_ffff) {
        lemma_least_from_alike(a, b, lo);
        lemma_least_from(a, lo);
        if let Some(m) = least_from(a, lo) {
            lemma_ascending_alike(a, b, m + 1);
        }
    }
}

proof fn lemma_same_ids(x: Seq<PaneSummary>, y: Seq<PaneSummary>)
    requires
        same_panes(x, y),
    ensures
        forall|id: u32| ids_of(x).contains(id) <==> ids_of(y).contains(id),
{
    assert forall|id: u32| ids_of(x).contains(id) implies ids_of(y).contains(id) by {
        let i = choose|i: int| 0 <= i < ids_of(x).len() && ids_of(x)[i] == id;
        assert(x.contains(x[i]));
        let j = choose|j: int| 0 <= j < y.len() && y[j] == x[i];
        assert(ids_of(y)[j] == id);
    }
    assert forall|id: u32| ids_of(y).contains(id) implies ids_of(x).contains(id) by {
        let i = choose|i: int| 0 <= i < ids_of(y).len() && ids_of(y)[i] == id;
        assert(y.contains(y[i]));
        let j = choose|j: int| 0 <= j < x.len() && x[j] == y[i];
        assert(ids_of(x)[j] == id);
    }
}

proof fn lemma_panes_in_order_alike(x: Seq<PaneSummary>, y: Seq<PaneSummary>, order: Seq<u32>)
    requires
        forall|id: u32| find_pane(x, id) == find_pane(y, id),
    ensures
        panes_in_order(x, order) == panes_in_order(y, order),
    decreases order.len(),
{
    if order.len() > 0 {
        lemma_panes_in_order_alike(x, y, order.drop_last());
        assert(find_pane(x, order.last()) == find_pane(y, order.last()));
    }
}

/// The hash input does not depend on the order in which the panes arrive:
/// two states that differ only in the order of their panes (each id once)
/// have the same input.
pub proof fn lemma_pane_order_not_read(a: TreeState, b: TreeState)
    requires
        b == (TreeState { panes: b.panes, ..a }),
        distinct_ids(a.panes@),
        distinct_ids(b.panes@),
        same_panes(a.panes@, b.panes@),
    ensures
        spec_tree_hash_input(a) == spec_tree_hash_input(b),
{
    lemma_same_ids(a.panes@, b.panes@);
    lemma_ascending_alike(ids_of(a.panes@), ids_of(b.panes@), 0);
    assert(pane_order(a) == pane_order(b));
    assert forall|id: u32| find_pane(a.panes@, id) == find_pane(b.panes@, id) by {
        lemma_same_panes_found_alike(a.panes@, b.panes@, id);
    }
    lemma_panes_in_order_alike(a.panes@, b.panes@, pane_order(a));
    assert(base_val(a) == base_val(b));
    assert(overlay_val(a) == overlay_val(b));
    assert(tree_val(a) == tree_val(b));
}

proof fn lemma_panes_in_order_differ(x: Seq<PaneSummary>, y: Seq<PaneSummary>, order: Seq<u32>, id: u32)
    requires
        forall|i: u32| i != id ==> find_pane(x, i) == find_pane(y, i),
        find_pane(x, id) matches Some(p) && find_pane(y, id) matches Some(q) && pane_val(p) != pane_val(q),
        order.contains(id),
    ensures
        panes_in_order(x, order) != panes_in_order(y, order),
    decreases order.len(),
{
    let o = order.drop_last();
    if order.last() == id {
        let (p, q) = (find_pane(x, id)->0, find_pane(y, id)->0);
        assert(panes_in_order(x, order).last() == pane_val(p));
        assert(panes_in_order(y, order).last() == pane_val(q));
    } else {
        let j = choose|j: int| 0 <= j < order.len() && order[j] == id;
        assert(o[j] == id);
        lemma_panes_in_order_differ(x, y, o, id);
        let w = find_pane(x, order.last());
        assert(w == find_pane(y, order.last()));
        if let Some(pw) = w {
            if panes_in_order(x, order) == panes_in_order(y, order) {
                assert(panes_in_order(x, o) =~= panes_in_order(x, order).drop_last());
                assert(panes_in_order(y, o) =~= panes_in_order(y, order).drop_last());
            }
        }
    }
}

/// Changing a listed pane changes the hash input: when two states differ
/// only in one pane that the tree reads (same ids throughout), and that
/// pane's title, working directory, cursor, scrollback length or scroll
/// offset differ, their inputs differ.
pub proof fn lemma_pane_change_read(a: TreeState, b: TreeState, id: u32)
    requires
        b == (TreeState { panes: b.panes, ..a }),
        distinct_ids(a.panes@),
        distinct_ids(b.panes@),
        forall|i: u32| ids_of(a.panes@).contains(i) <==> ids_of(b.panes@).contains(i),
        forall|i: u32| i != id ==> find_pane(a.panes@, i) == find_pane(b.panes@, i),
        pane_order(a).contains(id),
        find_pane(a.panes@, id) matches Some(p) && find_pane(b.panes@, id) matches Some(q) && pane_val(p) != pane_val(q),
    ensures
        spec_tree_hash_input(a) != spec_tree_hash_input(b),
{
    lemma_ascending_alike(ids_of(a.panes@), ids_of(b.panes@), 0);
    assert(pane_order(a) == pane_order(b));
    lemma_panes_in_order_differ(a.panes@, b.panes@, pane_order(a), id);
    if spec_tree_hash_input(a) == spec_tree_hash_input(b) {
        lemma_enc_val_injective(tree_val(a), tree_val(b));
        assert(base_val(a) == tree_val(a)->List_0[0]);
        assert(base_val(b) == tree_val(b)->List_0[0]);
        assert(base_val(a)->List_0[2] == Val::List(panes_in_order(a.panes@, pane_order(a))));
        assert(base_val(b)->List_0[2] == Val::List(panes_in_order(b.panes@, pane_order(b))));
    }
}

/// Moving the focus changes the hash input.
pub proof fn lemma_focus_change_read(a: TreeState, b: TreeState)
    requires
        b == (TreeState { focused_pane_id: b.focused_pane_id, ..a }),
        a.focused_pane_id != b.focused_pane_id,
    ensures
        spec_tree_hash_input(a) != spec_tree_hash_input(b),
{
    if spec_tree_hash_input(a) == spec_tree_hash_input(b) {
        lemma_enc_val_injective(tree_val(a), tree_val(b));
        assert(base_val(a) == tree_val(a)->List_0[0]);
        assert(base_val(b) == tree_val(b)->List_0[0]);
        assert(focused_val(a.focused_pane_id) == base_val(a)->List_0[1]);
        assert(focused_val(b.focused_pane_id) == base_val(b)->List_0[1]);
        match a.focused_pane_id {
            Some(x) => {
                assert(focused_val(a.focused_pane_id)->Present_0 == Box::new(Val::Num(x as u64)));
                if let Some(y) = b.focused_pane_id {
                    assert(focused_val(b.focused_pane_id)->Present_0 == Box::new(Val::Num(y as u64)));
                }
            },
            None => {},
        }
    }
}

/// Only the bars still shown are read: states that differ only in their
/// info bars, with the same bars not dismissed (slot and message), have the
/// same hash input. The offline bar's elapsed time is not part of a bar.
pub proof fn lemma_dismissed_bars_not_read(a: TreeState, b: TreeState)
    requires
        b == (TreeState { info_bars: b.info_bars, ..a }),
        live_bars(a.info_bars@) == live_bars(b.info_bars@),
    ensures
        spec_tree_hash_input(a) == spec_tree_hash_input(b),
{
    assert(overlay_val(a) == overlay_val(b));
    assert(tree_val(a) == tree_val(b));
}

/// A dismissed bar counts as gone: the bars read are those read without it.
pub proof fn lemma_dismissed_bar_counts_as_gone(bars: Seq<InfoBarSummary>, i: int)
    requires
        0 <= i < bars.len(),
        bars[i].dismissed,
    ensures
        live_bars(bars) == live_bars(bars.remove(i)),
    decreases bars.len(),
{
    if i == bars.len() - 1 {
        assert(bars.remove(i) =~= bars.drop_last());
    } else {
        let d = bars.drop_last();
        lemma_dismissed_bar_counts_as_gone(d, i);
        let r = bars.remove(i);
        assert(r.drop_last() =~= d.remove(i));
        assert(r.last() == bars.last());
    }
}


// ---- Laying the state out ----

fn open_list(out: &mut Vec<u64>)
    ensures
        building(final(out)@, old(out)@, Seq::empty()),
{
    out.push(4);
    assert(out@ =~= old(out)@ + seq![4u64] + open_items(Seq::<Val>::empty()));
}

fn close_list(out: &mut Vec<u64>, Ghost(start): Ghost<Seq<u64>>, Ghost(done): Ghost<Seq<Val>>)
    requires
        building(old(out)@, start, done),
    ensures
        final(out)@ == start + enc_val(Val::List(done)),
{
    proof {
        lemma_building_close(out@, start, done);
    }
    out.push(0);
    assert(out@ =~= old(out)@ + seq![0u64]);
}

fn text_in(out: &mut Vec<u64>, s: &str, Ghost(start): Ghost<Seq<u64>>, Ghost(done): Ghost<Seq<Val>>)
    requires
        building(old(out)@, start, done),
    ensures
        building(final(out)@, start, done.push(Val::Text(s@))),
{
    proof {
        lemma_building_push(out@, start, done, Val::Text(s@));
    }
    out.push(1);
    push_text(out, s);
    assert(out@ =~= old(out)@ + seq![1u64] + enc_val(Val::Text(s@)));
}

fn num_in(out: &mut Vec<u64>, x: u64, Ghost(start): Ghost<Seq<u64>>, Ghost(done): Ghost<Seq<Val>>)
    requires
        building(old(out)@, start, done),
    ensures
        building(final(out)@, start, done.push(Val::Num(x))),
{
    proof {
        lemma_building_push(out@, start, done, Val::Num(x));
    }
    out.push(1);
    push_num(out, x);
    assert(out@ =~= old(out)@ + seq![1u64] + enc_val(Val::Num(x)));
}

fn flag_in(out: &mut Vec<u64>, b: bool, Ghost(start): Ghost<Seq<u64>>, Ghost(done): Ghost<Seq<Val>>)
    requires
        building(old(out)@, start, done),
    ensures
        building(final(out)@, start, done.push(flag(b))),
{
    num_in(out, if b { 1 } else { 0 }, Ghost(start), Ghost(done));
}

/// The item mark before a nested piece: afterwards, pushing the piece's
/// words extends the list by that piece.
fn mark(out: &mut Vec<u64>)
    ensures
        final(out)@ == old(out)@ + seq![1u64],
{
    out.push(1);
}

fn push_edit(out: &mut Vec<u64>, e: &TextEdit)
    ensures
        final(out)@ == old(out)@ + enc_val(edit_val(*e)),
{
    let ghost start = out@;
    let ghost mut d = Seq::<Val>::empty();
    open_list(out);
    text_in(out, e.buffer.as_str(), Ghost(start), Ghost(d));
    proof { d = d.push(text(e.buffer)); }
    num_in(out, e.cursor, Ghost(start), Ghost(d));
    proof { d = d.push(Val::Num(e.cursor)); }
    text_in(out, e.preedit.as_str(), Ghost(start), Ghost(d));
    proof { d = d.push(text(e.preedit)); }
    assert(d =~= seq![text(e.buffer), Val::Num(e.cursor), text(e.preedit)]);
    close_list(out, Ghost(start), Ghost(d));
}


fn push_opt_text(out: &mut Vec<u64>, o: &Option<String>)
    ensures
        final(out)@ == old(out)@ + enc_val(opt_text(*o)),
{
    match o {
        Some(t) => {
            out.push(3);
            push_text(out, t.as_str());
            assert(out@ =~= old(out)@ + enc_val(opt_text(*o)));
        },
        None => {
            out.push(2);
            assert(out@ =~= old(out)@ + enc_val(opt_text(*o)));
        },
    }
}

fn push_opt_num(out: &mut Vec<u64>, o: Option<u64>)
    ensures
        final(out)@ == old(out)@ + enc_val(opt_num(o)),
{
    match o {
        Some(x) => {
            out.push(3);
            push_num(out, x);
            assert(out@ =~= old(out)@ + enc_val(opt_num(o)));
        },
        None => {
            out.push(2);
            assert(out@ =~= old(out)@ + enc_val(opt_num(o)));
        },
    }
}

fn push_opt_edit(out: &mut Vec<u64>, o: &Option<TextEdit>)
    ensures
        final(out)@ == old(out)@ + enc_val(opt_edit_val(*o)),
{
    match o {
        Some(e) => {
            out.push(3);
            push_edit(out, e);
            assert(out@ =~= old(out)@ + enc_val(opt_edit_val(*o)));
        },
        None => {
            out.push(2);
            assert(out@ =~= old(out)@ + enc_val(opt_edit_val(*o)));
        },
    }
}

fn push_key_editing(out: &mut Vec<u64>, k: &KeyEditing)
    ensures
        final(out)@ == old(out)@ + enc_val(key_editing_val(*k)),
{
    match k {
        KeyEditing::Off => push_num(out, 0),
        KeyEditing::Record => push_num(out, 1),
        KeyEditing::Text(e) => {
            out.push(3);
            push_edit(out, e);
            assert(out@ =~= old(out)@ + enc_val(key_editing_val(*k)));
        },
    }
}

/// Appends `v`'s words after an item mark to a list under construction.
proof fn lemma_nested(before: Seq<u64>, after: Seq<u64>, start: Seq<u64>, d: Seq<Val>, v: Val)
    requires
        building(before, start, d),
        after == before + seq![1u64] + enc_val(v),
    ensures
        building(after, start, d.push(v)),
{
    lemma_building_push(before, start, d, v);
}

fn push_pane(out: &mut Vec<u64>, p: &PaneSummary)
    ensures
        final(out)@ == old(out)@ + enc_val(pane_val(*p)),
{
    let ghost start = out@;
    let ghost mut d = Seq::<Val>::empty();
    open_list(out);
    num_in(out, p.id as u64, Ghost(start), Ghost(d));
    proof { d = d.push(Val::Num(p.id as u64)); }
    text_in(out, p.title.as_str(), Ghost(start), Ghost(d));
    proof { d = d.push(text(p.title)); }
    let ghost before = out@;
    mark(out);
    push_opt_text(out, &p.cwd);
    proof {
        lemma_nested(before, out@, start, d, opt_text(p.cwd));
        d = d.push(opt_text(p.cwd));
    }
    num_in(out, p.cursor_col as u64, Ghost(start), Ghost(d));
    proof { d = d.push(Val::Num(p.cursor_col as u64)); }
    num_in(out, p.cursor_row as u64, Ghost(start), Ghost(d));
    proof { d = d.push(Val::Num(p.cursor_row as u64)); }
    num_in(out, p.scrollback_len, Ghost(start), Ghost(d));
    proof { d = d.push(Val::Num(p.scrollback_len)); }
    num_in(out, p.scroll_offset, Ghost(start), Ghost(d));
    proof { d = d.push(Val::Num(p.scroll_offset)); }
    assert(d =~= seq![
        Val::Num(p.id as u64),
        text(p.title),
        opt_text(p.cwd),
        Val::Num(p.cursor_col as u64),
        Val::Num(p.cursor_row as u64),
        Val::Num(p.scrollback_len),
        Val::Num(p.scroll_offset),
    ]);
    close_list(out, Ghost(start), Ghost(d));
}

fn push_pair(out: &mut Vec<u64>, p: &TextPair)
    ensures
        final(out)@ == old(out)@ + enc_val(pair_val(*p)),
{
    let ghost start = out@;
    let ghost mut d = Seq::<Val>::empty();
    open_list(out);
    text_in(out, p.first.as_str(), Ghost(start), Ghost(d));
    proof { d = d.push(text(p.first)); }
    text_in(out, p.second.as_str(), Ghost(start), Ghost(d));
    proof { d = d.push(text(p.second)); }
    assert(d =~= seq![text(p.first), text(p.second)]);
    close_list(out, Ghost(start), Ghost(d));
}

fn push_pairs(out: &mut Vec<u64>, v: &Vec<TextPair>)
    ensures
        final(out)@ == old(out)@ + enc_val(pairs_val(v@)),
{
    let ghost start = out@;
    open_list(out);
    let mut i: usize = 0;
    while i < v.len()
        invariant
            i <= v@.len(),
            building(out@, start, v@.take(i as int).map_values(|p: TextPair| pair_val(p))),
        decreases v@.len() - i,
    {
        let ghost before = out@;
        mark(out);
        push_pair(out, &v[i]);
        proof {
            lemma_nested(before, out@, start, v@.take(i as int).map_values(|p: TextPair| pair_val(p)), pair_val(v@[i as int]));
            assert(v@.take(i + 1).map_values(|p: TextPair| pair_val(p)) =~= v@.take(i as int).map_values(
                |p: TextPair| pair_val(p),
            ).push(pair_val(v@[i as int])));
        }
        i = i + 1;
    }
    assert(v@.take(v@.len() as int) =~= v@);
    close_list(out, Ghost(start), Ghost(v@.map_values(|p: TextPair| pair_val(p))));
}


fn push_close_dialog(out: &mut Vec<u64>, o: &Option<CloseDialogSummary>)
    ensures
        final(out)@ == old(out)@ + enc_val(close_dialog_val(*o)),
{
    match o {
        None => {
            out.push(2);
            assert(out@ =~= old(out)@ + enc_val(close_dialog_val(*o)));
        },
        Some(dg) => {
            out.push(3);
            let ghost start = out@;
            let ghost mut d = Seq::<Val>::empty();
            open_list(out);
            text_in(out, dg.message.as_str(), Ghost(start), Ghost(d));
            proof { d = d.push(text(dg.message)); }
            text_in(out, dg.kill_label.as_str(), Ghost(start), Ghost(d));
            proof { d = d.push(text(dg.kill_label)); }
            text_in(out, dg.cancel_label.as_str(), Ghost(start), Ghost(d));
            proof { d = d.push(text(dg.cancel_label)); }
            num_in(out, dg.selected_button, Ghost(start), Ghost(d));
            proof { d = d.push(Val::Num(dg.selected_button)); }
            assert(d =~= seq![text(dg.message), text(dg.kill_label), text(dg.cancel_label), Val::Num(dg.selected_button)]);
            close_list(out, Ghost(start), Ghost(d));
            assert(out@ =~= old(out)@ + enc_val(close_dialog_val(*o)));
        },
    }
}

fn push_menu_item(out: &mut Vec<u64>, it: &MenuItemSummary)
    ensures
        final(out)@ == old(out)@ + enc_val(menu_item_val(*it)),
{
    let ghost start = out@;
    let ghost mut d = Seq::<Val>::empty();
    open_list(out);
    text_in(out, it.label.as_str(), Ghost(start), Ghost(d));
    proof { d = d.push(text(it.label)); }
    let ghost before = out@;
    mark(out);
    push_opt_text(out, &it.hint);
    proof {
        lemma_nested(before, out@, start, d, opt_text(it.hint));
        d = d.push(opt_text(it.hint));
    }
    assert(d =~= seq![text(it.label), opt_text(it.hint)]);
    close_list(out, Ghost(start), Ghost(d));
}

fn push_context_menu(out: &mut Vec<u64>, o: &Option<ContextMenuSummary>)
    ensures
        final(out)@ == old(out)@ + enc_val(context_menu_val(*o)),
{
    match o {
        None => {
            out.push(2);
            assert(out@ =~= old(out)@ + enc_val(context_menu_val(*o)));
        },
        Some(m) => {
            out.push(3);
            let ghost start = out@;
            open_list(out);
            let ghost before = out@;
            mark(out);
            let ghost istart = out@;
            open_list(out);
            let mut i: usize = 0;
            while i < m.items.len()
                invariant
                    i <= m.items@.len(),
                    building(out@, istart, m.items@.take(i as int).map_values(|x: MenuItemSummary| menu_item_val(x))),
                decreases m.items@.len() - i,
            {
                let ghost b = out@;
                mark(out);
                push_menu_item(out, &m.items[i]);
                proof {
                    lemma_nested(b, out@, istart, m.items@.take(i as int).map_values(|x: MenuItemSummary| menu_item_val(x)), menu_item_val(m.items@[i as int]));
                    assert(m.items@.take(i + 1).map_values(|x: MenuItemSummary| menu_item_val(x)) =~= m.items@.take(i as int).map_values(
                        |x: MenuItemSummary| menu_item_val(x),
                    ).push(menu_item_val(m.items@[i as int])));
                }
                i = i + 1;
            }
            assert(m.items@.take(m.items@.len() as int) =~= m.items@);
            let ghost items = Val::List(m.items@.map_values(|x: MenuItemSummary| menu_item_val(x)));
            close_list(out, Ghost(istart), Ghost(m.items@.map_values(|x: MenuItemSummary| menu_item_val(x))));
            let ghost mut d = Seq::<Val>::empty();
            proof {
                lemma_nested(before, out@, start, d, items);
                d = d.push(items);
            }
            let ghost before2 = out@;
            mark(out);
            push_opt_num(out, m.hovered);
            proof {
                lemma_nested(before2, out@, start, d, opt_num(m.hovered));
                d = d.push(opt_num(m.hovered));
            }
            assert(d =~= seq![items, opt_num(m.hovered)]);
            close_list(out, Ghost(start), Ghost(d));
            assert(out@ =~= old(out)@ + enc_val(context_menu_val(*o)));
        },
    }
}

fn push_picker(out: &mut Vec<u64>, p: &PickerSummary)
    ensures
        final(out)@ == old(out)@ + enc_val(picker_val(*p)),
{
    if p.is_open {
        out.push(3);
        let ghost start = out@;
        let ghost mut d = Seq::<Val>::empty();
        open_list(out);
        text_in(out, p.query.as_str(), Ghost(start), Ghost(d));
        proof { d = d.push(text(p.query)); }
        num_in(out, p.selected, Ghost(start), Ghost(d));
        proof { d = d.push(Val::Num(p.selected)); }
        assert(d =~= seq![text(p.query), Val::Num(p.selected)]);
        close_list(out, Ghost(start), Ghost(d));
        assert(out@ =~= old(out)@ + enc_val(picker_val(*p)));
    } else {
        out.push(2);
        assert(out@ =~= old(out)@ + enc_val(picker_val(*p)));
    }
}

fn push_ssh_host(out: &mut Vec<u64>, h: &SshHostEntry)
    ensures
        final(out)@ == old(out)@ + enc_val(ssh_host_val(*h)),
{
    let ghost start = out@;
    let ghost mut d = Seq::<Val>::empty();
    open_list(out);
    text_in(out, h.name.as_str(), Ghost(start), Ghost(d));
    proof { d = d.push(text(h.name)); }
    text_in(out, h.host.as_str(), Ghost(start), Ghost(d));
    proof { d = d.push(text(h.host)); }
    num_in(out, h.port as u64, Ghost(start), Ghost(d));
    proof { d = d.push(Val::Num(h.port as u64)); }
    text_in(out, h.username.as_str(), Ghost(start), Ghost(d));
    proof { d = d.push(text(h.username)); }
    text_in(out, h.auth_type.as_str(), Ghost(start), Ghost(d));
    proof { d = d.push(text(h.auth_type)); }
    assert(d =~= seq![text(h.name), text(h.host), Val::Num(h.port as u64), text(h.username), text(h.auth_type)]);
    close_list(out, Ghost(start), Ghost(d));
}

fn push_ssh_hosts(out: &mut Vec<u64>, v: &Vec<SshHostEntry>)
    ensures
        final(out)@ == old(out)@ + enc_val(Val::List(v@.map_values(|h: SshHostEntry| ssh_host_val(h)))),
{
    let ghost start = out@;
    open_list(out);
    let mut i: usize = 0;
    while i < v.len()
        invariant
            i <= v@.len(),
            building(out@, start, v@.take(i as int).map_values(|h: SshHostEntry| ssh_host_val(h))),
        decreases v@.len() - i,
    {
        let ghost before = out@;
        mark(out);
        push_ssh_host(out, &v[i]);
        proof {
            lemma_nested(before, out@, start, v@.take(i as int).map_values(|h: SshHostEntry| ssh_host_val(h)), ssh_host_val(v@[i as int]));
            assert(v@.take(i + 1).map_values(|h: SshHostEntry| ssh_host_val(h)) =~= v@.take(i as int).map_values(
                |h: SshHostEntry| ssh_host_val(h),
            ).push(ssh_host_val(v@[i as int])));
        }
        i = i + 1;
    }
    assert(v@.take(v@.len() as int) =~= v@);
    close_list(out, Ghost(start), Ghost(v@.map_values(|h: SshHostEntry| ssh_host_val(h))));
}

fn push_alerts(out: &mut Vec<u64>, v: &Vec<AlertSummary>)
    ensures
        final(out)@ == old(out)@ + enc_val(Val::List(v@.map_values(|a: AlertSummary| alert_val(a)))),
{
    let ghost start = out@;
    open_list(out);
    let mut i: usize = 0;
    while i < v.len()
        invariant
            i <= v@.len(),
            building(out@, start, v@.take(i as int).map_values(|a: AlertSummary| alert_val(a))),
        decreases v@.len() - i,
    {
        let ghost before = out@;
        mark(out);
        let ghost istart = out@;
        let ghost mut d = Seq::<Val>::empty();
        open_list(out);
        num_in(out, v[i].seq, Ghost(istart), Ghost(d));
        proof { d = d.push(Val::Num(v@[i as int].seq)); }
        num_in(out, v[i].kind, Ghost(istart), Ghost(d));
        proof { d = d.push(Val::Num(v@[i as int].kind)); }
        assert(d =~= seq![Val::Num(v@[i as int].seq), Val::Num(v@[i as int].kind)]);
        close_list(out, Ghost(istart), Ghost(d));
        proof {
            lemma_nested(before, out@, start, v@.take(i as int).map_values(|a: AlertSummary| alert_val(a)), alert_val(v@[i as int]));
            assert(v@.take(i + 1).map_values(|a: AlertSummary| alert_val(a)) =~= v@.take(i as int).map_values(
                |a: AlertSummary| alert_val(a),
            ).push(alert_val(v@[i as int])));
        }
        i = i + 1;
    }
    assert(v@.take(v@.len() as int) =~= v@);
    close_list(out, Ghost(start), Ghost(v@.map_values(|a: AlertSummary| alert_val(a))));
}

fn push_bars(out: &mut Vec<u64>, v: &Vec<InfoBarSummary>)
    ensures
        final(out)@ == old(out)@ + enc_val(Val::List(live_bars(v@))),
{
    let ghost start = out@;
    open_list(out);
    let mut i: usize = 0;
    while i < v.len()
        invariant
            i <= v@.len(),
            building(out@, start, live_bars(v@.take(i as int))),
        decreases v@.len() - i,
    {
        let b = &v[i];
        proof {
            assert(v@.take(i + 1).drop_last() =~= v@.take(i as int));
            assert(v@.take(i + 1).last() == v@[i as int]);
        }
        if !b.dismissed {
            let ghost before = out@;
            mark(out);
            let ghost istart = out@;
            let ghost mut d = Seq::<Val>::empty();
            open_list(out);
            num_in(out, b.slot, Ghost(istart), Ghost(d));
            proof { d = d.push(Val::Num(b.slot)); }
            let ghost b2 = out@;
            mark(out);
            push_opt_text(out, &b.message);
            proof {
                lemma_nested(b2, out@, istart, d, opt_text(b.message));
                d = d.push(opt_text(b.message));
            }
            assert(d =~= seq![Val::Num(b.slot), opt_text(b.message)]);
            close_list(out, Ghost(istart), Ghost(d));
            proof {
                lemma_nested(before, out@, start, live_bars(v@.take(i as int)), bar_val(*b));
            }
        }
        i = i + 1;
    }
    assert(v@.take(v@.len() as int) =~= v@);
    close_list(out, Ghost(start), Ghost(live_bars(v@)));
}


#[verifier::rlimit(30)]
fn push_settings_head(out: &mut Vec<u64>, p: &SettingsSummary)
    ensures
        final(out)@ == old(out)@ + enc_val(settings_head_val(*p)),
{
    let ghost start = out@;
    let ghost mut d = Seq::<Val>::empty();
    open_list(out);
    text_in(out, p.category.as_str(), Ghost(start), Ghost(d));
    proof { d = d.push(text(p.category)); }
    text_in(out, p.font_family.as_str(), Ghost(start), Ghost(d));
    proof { d = d.push(text(p.font_family)); }
    flag_in(out, p.font_family_editing, Ghost(start), Ghost(d));
    proof { d = d.push(flag(p.font_family_editing)); }
    num_in(out, p.font_size_bits as u64, Ghost(start), Ghost(d));
    proof { d = d.push(Val::Num(p.font_size_bits as u64)); }
    num_in(out, p.opacity_bits as u64, Ghost(start), Ghost(d));
    proof { d = d.push(Val::Num(p.opacity_bits as u64)); }
    num_in(out, p.scheme_index, Ghost(start), Ghost(d));
    proof { d = d.push(Val::Num(p.scheme_index)); }
    num_in(out, p.language_index, Ghost(start), Ghost(d));
    proof { d = d.push(Val::Num(p.language_index)); }
    flag_in(out, p.auto_check_update, Ghost(start), Ghost(d));
    proof { d = d.push(flag(p.auto_check_update)); }
    num_in(out, p.focused_widget_index, Ghost(start), Ghost(d));
    proof { d = d.push(Val::Num(p.focused_widget_index)); }
    text_in(out, p.cursor_style.as_str(), Ghost(start), Ghost(d));
    proof { d = d.push(text(p.cursor_style)); }
    text_in(out, p.present_mode.as_str(), Ghost(start), Ghost(d));
    proof { d = d.push(text(p.present_mode)); }
    num_in(out, p.padding_x, Ghost(start), Ghost(d));
    proof { d = d.push(Val::Num(p.padding_x)); }
    num_in(out, p.padding_y, Ghost(start), Ghost(d));
    proof { d = d.push(Val::Num(p.padding_y)); }
    num_in(out, p.selected_profile, Ghost(start), Ghost(d));
    proof { d = d.push(Val::Num(p.selected_profile)); }
    assert(d =~= seq![
        text(p.category),
        text(p.font_family),
        flag(p.font_family_editing),
        Val::Num(p.font_size_bits as u64),
        Val::Num(p.opacity_bits as u64),
        Val::Num(p.scheme_index),
        Val::Num(p.language_index),
        flag(p.auto_check_update),
        Val::Num(p.focused_widget_index),
        text(p.cursor_style),
        text(p.present_mode),
        Val::Num(p.padding_x),
        Val::Num(p.padding_y),
        Val::Num(p.selected_profile)
    ]);
    close_list(out, Ghost(start), Ghost(d));
}

#[verifier::rlimit(30)]
fn push_settings_tail(out: &mut Vec<u64>, p: &SettingsSummary)
    ensures
        final(out)@ == old(out)@ + enc_val(settings_tail_val(*p)),
{
    let ghost start = out@;
    let ghost mut d = Seq::<Val>::empty();
    open_list(out);
    let ghost before = out@;
    mark(out);
    push_opt_num(out, p.active_profile_index);
    proof { lemma_nested(before, out@, start, d, opt_num(p.active_profile_index)); }
    proof { d = d.push(opt_num(p.active_profile_index)); }
    let ghost before = out@;
    mark(out);
    push_pairs(out, &p.profiles);
    proof { lemma_nested(before, out@, start, d, pairs_val(p.profiles@)); }
    proof { d = d.push(pairs_val(p.profiles@)); }
    num_in(out, p.selected_host_index, Ghost(start), Ghost(d));
    proof { d = d.push(Val::Num(p.selected_host_index)); }
    let ghost before = out@;
    mark(out);
    push_ssh_hosts(out, &p.ssh_hosts);
    proof { lemma_nested(before, out@, start, d, Val::List(p.ssh_hosts@.map_values(|h: SshHostEntry| ssh_host_val(h)))); }
    proof { d = d.push(Val::List(p.ssh_hosts@.map_values(|h: SshHostEntry| ssh_host_val(h)))); }
    let ghost before = out@;
    mark(out);
    push_opt_edit(out, &p.ssh_field_editing);
    proof { lemma_nested(before, out@, start, d, opt_edit_val(p.ssh_field_editing)); }
    proof { d = d.push(opt_edit_val(p.ssh_field_editing)); }
    flag_in(out, p.ssh_delete_dialog_open, Ghost(start), Ghost(d));
    proof { d = d.push(flag(p.ssh_delete_dialog_open)); }
    flag_in(out, p.ssh_delete_dialog_confirm_focused, Ghost(start), Ghost(d));
    proof { d = d.push(flag(p.ssh_delete_dialog_confirm_focused)); }
    num_in(out, p.selected_key_index, Ghost(start), Ghost(d));
    proof { d = d.push(Val::Num(p.selected_key_index)); }
    let ghost before = out@;
    mark(out);
    push_pairs(out, &p.keybindings);
    proof { lemma_nested(before, out@, start, d, pairs_val(p.keybindings@)); }
    proof { d = d.push(pairs_val(p.keybindings@)); }
    flag_in(out, p.key_delete_dialog_open, Ghost(start), Ghost(d));
    proof { d = d.push(flag(p.key_delete_dialog_open)); }
    flag_in(out, p.key_delete_dialog_confirm_focused, Ghost(start), Ghost(d));
    proof { d = d.push(flag(p.key_delete_dialog_confirm_focused)); }
    text_in(out, p.leader_key.as_str(), Ghost(start), Ghost(d));
    proof { d = d.push(text(p.leader_key)); }
    let ghost before = out@;
    mark(out);
    push_opt_edit(out, &p.leader_key_editing);
    proof { lemma_nested(before, out@, start, d, opt_edit_val(p.leader_key_editing)); }
    proof { d = d.push(opt_edit_val(p.leader_key_editing)); }
    let ghost before = out@;
    mark(out);
    push_key_editing(out, &p.key_editing);
    proof { lemma_nested(before, out@, start, d, key_editing_val(p.key_editing)); }
    proof { d = d.push(key_editing_val(p.key_editing)); }
    assert(d =~= seq![
        opt_num(p.active_profile_index),
        pairs_val(p.profiles@),
        Val::Num(p.selected_host_index),
        Val::List(p.ssh_hosts@.map_values(|h: SshHostEntry| ssh_host_val(h))),
        opt_edit_val(p.ssh_field_editing),
        flag(p.ssh_delete_dialog_open),
        flag(p.ssh_delete_dialog_confirm_focused),
        Val::Num(p.selected_key_index),
        pairs_val(p.keybindings@),
        flag(p.key_delete_dialog_open),
        flag(p.key_delete_dialog_confirm_focused),
        text(p.leader_key),
        opt_edit_val(p.leader_key_editing),
        key_editing_val(p.key_editing)
    ]);
    close_list(out, Ghost(start), Ghost(d));
}

fn push_settings(out: &mut Vec<u64>, p: &SettingsSummary)
    ensures
        final(out)@ == old(out)@ + enc_val(settings_val(*p)),
{
    if p.is_open {
        out.push(3);
        let ghost start = out@;
        let ghost mut d = Seq::<Val>::empty();
        open_list(out);
        let ghost b1 = out@;
        mark(out);
        push_settings_head(out, p);
        proof {
            lemma_nested(b1, out@, start, d, settings_head_val(*p));
            d = d.push(settings_head_val(*p));
        }
        let ghost b2 = out@;
        mark(out);
        push_settings_tail(out, p);
        proof {
            lemma_nested(b2, out@, start, d, settings_tail_val(*p));
            d = d.push(settings_tail_val(*p));
        }
        assert(d =~= seq![settings_head_val(*p), settings_tail_val(*p)]);
        close_list(out, Ghost(start), Ghost(d));
        assert(out@ =~= old(out)@ + enc_val(settings_val(*p)));
    } else {
        out.push(2);
        assert(out@ =~= old(out)@ + enc_val(settings_val(*p)));
    }
}

fn push_quick_select(out: &mut Vec<u64>, q: &QuickSelectSummary)
    ensures
        final(out)@ == old(out)@ + enc_val(quick_select_val(*q)),
{
    if q.is_active {
        out.push(3);
        let ghost start = out@;
        let ghost mut d = Seq::<Val>::empty();
        open_list(out);
        text_in(out, q.typed_label.as_str(), Ghost(start), Ghost(d));
        proof { d = d.push(text(q.typed_label)); }
        let ghost before = out@;
        mark(out);
        push_pairs(out, &q.matches);
        proof {
            lemma_nested(before, out@, start, d, pairs_val(q.matches@));
            d = d.push(pairs_val(q.matches@));
        }
        assert(d =~= seq![text(q.typed_label), pairs_val(q.matches@)]);
        close_list(out, Ghost(start), Ghost(d));
        assert(out@ =~= old(out)@ + enc_val(quick_select_val(*q)));
    } else {
        out.push(2);
        assert(out@ =~= old(out)@ + enc_val(quick_select_val(*q)));
    }
}


/// The ids of the panes, in their stored order.
pub open spec fn ids_of(panes: Seq<PaneSummary>) -> Seq<u32> {
    panes.map_values(|p: PaneSummary| p.id)
}

fn least_id_from(ids: &Vec<u32>, lo: u64) -> (r: Option<u32>)
    ensures
        r == least_from(ids@, lo as int),
{
    let n = ids.len();
    let mut i = n;
    let mut r: Option<u32> = None;
    assert(ids@.subrange(n as int, n as int) =~= Seq::<u32>::empty());
    while i > 0
        invariant
            i <= n,
            n == ids@.len(),
            r == least_from(ids@.subrange(i as int, n as int), lo as int),
        decreases i,
    {
        i = i - 1;
        let h = ids[i];
        proof {
            let sub = ids@.subrange(i as int, n as int);
            assert(sub.drop_first() =~= ids@.subrange(i + 1, n as int));
            assert(sub[0] == h);
        }
        let take = (h as u64) >= lo && match r {
            None => true,
            Some(m) => h < m,
        };
        if take {
            r = Some(h);
        }
    }
    assert(ids@.subrange(0, n as int) =~= ids@);
    r
}

/// The distinct ids of `ids` in ascending order.
pub(crate) fn ascending_ids(ids: &Vec<u32>) -> (r: Vec<u32>)
    ensures
        r@ == ascending_from(ids@, 0),
{
    let mut out: Vec<u32> = Vec::new();
    let mut lo: u64 = 0;
    let mut done = false;
    while !done
        invariant
            lo <= 0x1_0000_0000,
            out@ + ascending_from(ids@, lo as int) == ascending_from(ids@, 0),
            done ==> ascending_from(ids@, lo as int) == Seq::<u32>::empty(),
        decreases 0x1_0000_0000 - lo, if done { 0int } else { 1int },
    {
        if lo > 0xffff_ffff {
            done = true;
        } else {
            match least_id_from(ids, lo) {
                None => {
                    done = true;
                },
                Some(m) => {
                    proof {
                        lemma_least_from(ids@, lo as int);
                        assert(ascending_from(ids@, lo as int) == seq![m] + ascending_from(ids@, m + 1));
                        assert(out@.push(m) + ascending_from(ids@, m + 1) =~= out@ + ascending_from(ids@, lo as int));
                    }
                    out.push(m);
                    lo = m as u64 + 1;
                },
            }
        }
    }
    assert(out@ + Seq::<u32>::empty() =~= out@);
    out
}

fn pane_ids(panes: &Vec<PaneSummary>) -> (r: Vec<u32>)
    ensures
        r@ == ids_of(panes@),
{
    let mut r: Vec<u32> = Vec::new();
    let n = panes.len();
    for i in 0..n
        invariant
            n == panes@.len(),
            r@ == ids_of(panes@.take(i as int)),
    {
        r.push(panes[i].id);
        assert(ids_of(panes@.take(i + 1)) =~= ids_of(panes@.take(i as int)).push(panes@[i as int].id));
    }
    assert(panes@.take(n as int) =~= panes@);
    r
}

fn find_pane_index(panes: &Vec<PaneSummary>, id: u32) -> (r: Option<usize>)
    ensures
        match find_pane(panes@, id) {
            Some(p) => r matches Some(i) && i < panes@.len() && panes@[i as int] == p,
            None => r is None,
        },
{
    let n = panes.len();
    let mut i: usize = 0;
    assert(panes@.subrange(0, n as int) =~= panes@);
    while i < n
        invariant
            i <= n,
            n == panes@.len(),
            find_pane(panes@, id) == find_pane(panes@.subrange(i as int, n as int), id),
        decreases n - i,
    {
        let sub = Ghost(panes@.subrange(i as int, n as int));
        assert(sub@[0] == panes@[i as int]);
        if panes[i].id == id {
            return Some(i);
        }
        assert(sub@.drop_first() =~= panes@.subrange(i + 1, n as int));
        i = i + 1;
    }
    None
}

fn push_panes_in(out: &mut Vec<u64>, panes: &Vec<PaneSummary>, order: &Vec<u32>)
    ensures
        final(out)@ == old(out)@ + enc_val(Val::List(panes_in_order(panes@, order@))),
{
    let ghost start = out@;
    open_list(out);
    let mut i: usize = 0;
    assert(order@.take(0) =~= Seq::<u32>::empty());
    while i < order.len()
        invariant
            i <= order@.len(),
            building(out@, start, panes_in_order(panes@, order@.take(i as int))),
        decreases order@.len() - i,
    {
        proof {
            assert(order@.take(i + 1).drop_last() =~= order@.take(i as int));
            assert(order@.take(i + 1).last() == order@[i as int]);
        }
        match find_pane_index(panes, order[i]) {
            Some(k) => {
                let ghost before = out@;
                mark(out);
                push_pane(out, &panes[k]);
                proof {
                    lemma_nested(before, out@, start, panes_in_order(panes@, order@.take(i as int)), pane_val(panes@[k as int]));
                }
            },
            None => {},
        }
        i = i + 1;
    }
    assert(order@.take(order@.len() as int) =~= order@);
    close_list(out, Ghost(start), Ghost(panes_in_order(panes@, order@)));
}

fn push_ids(out: &mut Vec<u64>, v: &Vec<u32>)
    ensures
        final(out)@ == old(out)@ + enc_val(ids_val(v@)),
{
    let ghost start = out@;
    open_list(out);
    let mut i: usize = 0;
    while i < v.len()
        invariant
            i <= v@.len(),
            building(out@, start, v@.take(i as int).map_values(|id: u32| Val::Num(id as u64))),
        decreases v@.len() - i,
    {
        num_in(out, v[i] as u64, Ghost(start), Ghost(v@.take(i as int).map_values(|id: u32| Val::Num(id as u64))));
        assert(v@.take(i + 1).map_values(|id: u32| Val::Num(id as u64)) =~= v@.take(i as int).map_values(
            |id: u32| Val::Num(id as u64),
        ).push(Val::Num(v@[i as int] as u64)));
        i = i + 1;
    }
    assert(v@.take(v@.len() as int) =~= v@);
    close_list(out, Ghost(start), Ghost(v@.map_values(|id: u32| Val::Num(id as u64))));
    assert(out@ == old(out)@ + enc_val(ids_val(v@)));
}

fn push_base(out: &mut Vec<u64>, s: &TreeState)
    ensures
        final(out)@ == old(out)@ + enc_val(base_val(*s)),
{
    let ghost start = out@;
    let ghost mut d = Seq::<Val>::empty();
    open_list(out);

    let ghost b0 = out@;
    mark(out);
    push_ids(out, &s.tab_order);
    let ghost v0 = ids_val(s.tab_order@);
    proof { lemma_nested(b0, out@, start, d, v0); d = d.push(v0); }

    let ghost b1 = out@;
    mark(out);
    let ghost m1 = out@;
    match s.focused_pane_id {
        Some(id) => {
            out.push(3);
            push_num(out, id as u64);
        },
        None => {
            out.push(2);
        },
    }
    assert(out@ =~= m1 + enc_val(focused_val(s.focused_pane_id)));
    proof { lemma_nested(b1, out@, start, d, focused_val(s.focused_pane_id)); d = d.push(focused_val(s.focused_pane_id)); }

    let ghost b2 = out@;
    mark(out);
    if s.tab_order.len() == 0 {
        let order = ascending_ids(&pane_ids(&s.panes));
        assert(order@ == pane_order(*s));
        push_panes_in(out, &s.panes, &order);
    } else {
        assert(s.tab_order@ == pane_order(*s));
        push_panes_in(out, &s.panes, &s.tab_order);
    }
    let ghost v2 = Val::List(panes_in_order(s.panes@, pane_order(*s)));
    proof { lemma_nested(b2, out@, start, d, v2); d = d.push(v2); }
    assert(d =~= seq![v0, focused_val(s.focused_pane_id), v2]);
    close_list(out, Ghost(start), Ghost(d));
}

fn push_overlays(out: &mut Vec<u64>, s: &TreeState)
    ensures
        final(out)@ == old(out)@ + enc_val(overlay_val(*s)),
{
    let ghost start = out@;
    let ghost mut d = Seq::<Val>::empty();
    open_list(out);

    let ghost b3 = out@;
    mark(out);
    push_close_dialog(out, &s.close_dialog);
    proof { lemma_nested(b3, out@, start, d, close_dialog_val(s.close_dialog)); d = d.push(close_dialog_val(s.close_dialog)); }

    let ghost b4 = out@;
    mark(out);
    push_context_menu(out, &s.context_menu);
    proof { lemma_nested(b4, out@, start, d, context_menu_val(s.context_menu)); d = d.push(context_menu_val(s.context_menu)); }

    let ghost b5 = out@;
    mark(out);
    push_picker(out, &s.palette);
    proof { lemma_nested(b5, out@, start, d, picker_val(s.palette)); d = d.push(picker_val(s.palette)); }

    let ghost b6 = out@;
    mark(out);
    push_picker(out, &s.host_manager);
    proof { lemma_nested(b6, out@, start, d, picker_val(s.host_manager)); d = d.push(picker_val(s.host_manager)); }

    let ghost b7 = out@;
    mark(out);
    push_picker(out, &s.macro_picker);
    proof { lemma_nested(b7, out@, start, d, picker_val(s.macro_picker)); d = d.push(picker_val(s.macro_picker)); }

    let ghost b8 = out@;
    mark(out);
    push_settings(out, &s.settings);
    proof { lemma_nested(b8, out@, start, d, settings_val(s.settings)); d = d.push(settings_val(s.settings)); }

    let ghost b9 = out@;
    mark(out);
    push_quick_select(out, &s.quick_select);
    proof { lemma_nested(b9, out@, start, d, quick_select_val(s.quick_select)); d = d.push(quick_select_val(s.quick_select)); }

    let ghost b10 = out@;
    mark(out);
    push_bars(out, &s.info_bars);
    proof { lemma_nested(b10, out@, start, d, Val::List(live_bars(s.info_bars@))); d = d.push(Val::List(live_bars(s.info_bars@))); }

    let ghost b11 = out@;
    mark(out);
    push_alerts(out, &s.alerts);
    let ghost v11 = Val::List(s.alerts@.map_values(|a: AlertSummary| alert_val(a)));
    proof { lemma_nested(b11, out@, start, d, v11); d = d.push(v11); }

    assert(d =~= seq![
        close_dialog_val(s.close_dialog),
        context_menu_val(s.context_menu),
        picker_val(s.palette),
        picker_val(s.host_manager),
        picker_val(s.macro_picker),
        settings_val(s.settings),
        quick_select_val(s.quick_select),
        Val::List(live_bars(s.info_bars@)),
        v11,
    ]);
    close_list(out, Ghost(start), Ghost(d));
}

/// The words hashed to detect a change of the accessibility tree's input:
/// the tab order, the focused pane, the panes in reading order, and each
/// overlay, bar and alert the tree shows.
pub fn tree_hash_input(s: &TreeState) -> (b: Vec<u64>)
    ensures
        b@ == spec_tree_hash_input(*s),
{
    let mut out: Vec<u64> = Vec::new();
    let ghost start = out@;
    let ghost mut d = Seq::<Val>::empty();
    open_list(&mut out);
    let ghost b0 = out@;
    mark(&mut out);
    push_base(&mut out, s);
    proof { lemma_nested(b0, out@, start, d, base_val(*s)); d = d.push(base_val(*s)); }
    let ghost b1 = out@;
    mark(&mut out);
    push_overlays(&mut out, s);
    proof { lemma_nested(b1, out@, start, d, overlay_val(*s)); d = d.push(overlay_val(*s)); }
    assert(d =~= seq![base_val(*s), overlay_val(*s)]);
    close_list(&mut out, Ghost(start), Ghost(d));
    assert(start =~= Seq::<u64>::empty());
    assert(out@ =~= enc_val(tree_val(*s)));
    out
}

} // verus!
