//! Decisions of the user interface: what the dropdowns hold and allow, which
//! dropdown shows a node's volume, what the status line says, and how ports
//! and links are colored.

use std::collections::HashSet;
use vstd::prelude::*;

use crate::candidate::{CandidateData, CandidateType, CandidateView};
use crate::text::{all_digits, digits_value, parse_u32_value, unsigned_digits};
use crate::types::{Direction, MediaType};

verus! {

broadcast use vstd::std_specs::hash::group_hash_axioms;

/// The views of a list of candidates.
pub open spec fn views(c: Seq<CandidateData>) -> Seq<CandidateView> {
    c.map_values(|d: CandidateData| d@)
}

/// A copy of a list of candidates.
pub fn clone_candidates(c: &Vec<CandidateData>) -> (r: Vec<CandidateData>)
    ensures
        views(r@) == views(c@),
{
    let mut out: Vec<CandidateData> = Vec::new();
    let mut i: usize = 0;
    while i < c.len()
        invariant
            i <= c@.len(),
            out@.len() == i,
            views(out@) == views(c@.take(i as int)),
        decreases c@.len() - i,
    {
        let x = c[i].clone();
        assert(x@ == c@[i as int]@);
        let ghost before = out@;
        out.push(x);
        proof {
            assert forall|k: int| 0 <= k < i + 1 implies views(out@)[k] == views(c@.take(i + 1))[k] by {
                if k < i {
                    assert(out@[k] == before[k]);
                    assert(views(before)[k] == views(c@.take(i as int))[k]);
                }
            }
            assert(views(out@) =~= views(c@.take(i + 1)));
        }
        i = i + 1;
    }
    proof {
        assert(c@.take(i as int) =~= c@);
    }
    out
}

/// Abstract contents of a [`Dropdown`].
pub struct DropdownView {
    pub pipewire_id: u32,
    pub candidates: Seq<CandidateView>,
    pub confirmed: Option<u32>,
    pub disabled: Set<u32>,
    pub selected: Option<u32>,
    pub removable: bool,
}

impl DropdownView {
    /// A new dropdown: no node, no candidates, nothing disabled or selected, not removable.
    pub open spec fn fresh() -> DropdownView {
        DropdownView {
            pipewire_id: 0,
            candidates: Seq::empty(),
            confirmed: None,
            disabled: Set::empty(),
            selected: None,
            removable: false,
        }
    }

    /// The selected candidate, if the selection points at one.
    pub open spec fn selected_candidate(self) -> Option<CandidateView> {
        match self.selected {
            Some(p) => if p < self.candidates.len() {
                Some(self.candidates[p as int])
            } else {
                None
            },
            None => None,
        }
    }

    /// Whether the selection can be confirmed: it points at a candidate that is not disabled.
    pub open spec fn can_confirm(self) -> bool {
        match self.selected_candidate() {
            Some(c) => !self.disabled.contains(c.id),
            None => false,
        }
    }
}

/// A dropdown to choose a node, then confirm it, edit it again or remove it.
pub struct Dropdown {
    pipewire_id: u32,
    candidates: Vec<CandidateData>,
    confirmed_target_id: Option<u32>,
    disabled_ids: HashSet<u32>,
    selected: Option<u32>,
    removable: bool,
}

impl View for Dropdown {
    type V = DropdownView;

    closed spec fn view(&self) -> DropdownView {
        DropdownView {
            pipewire_id: self.pipewire_id,
            candidates: views(self.candidates@),
            confirmed: self.confirmed_target_id,
            disabled: self.disabled_ids@,
            selected: self.selected,
            removable: self.removable,
        }
    }
}

/// The icon of the mute button.
pub fn mute_icon_name(muted: bool) -> (r: &'static str)
    ensures
        muted ==> r@ == "audio-volume-muted-symbolic"@,
        !muted ==> r@ == "audio-volume-high-symbolic"@,
{
    if muted {
        "audio-volume-muted-symbolic"
    } else {
        "audio-volume-high-symbolic"
    }
}

impl Dropdown {
    pub fn new() -> (d: Dropdown)
        ensures
            d@ == DropdownView::fresh(),
    {
        let d = Dropdown {
            pipewire_id: 0,
            candidates: Vec::new(),
            confirmed_target_id: None,
            disabled_ids: HashSet::new(),
            selected: None,
            removable: false,
        };
        proof {
            assert(d@.candidates =~= Seq::empty());
        }
        d
    }

    pub fn pipewire_id(&self) -> (r: u32)
        ensures
            r == self@.pipewire_id,
    {
        self.pipewire_id
    }

    /// Follow the position that the list widget has selected.
    pub fn set_selected(&mut self, selected: Option<u32>)
        ensures
            final(self)@ == (DropdownView { selected, ..old(self)@ }),
    {
        self.selected = selected;
    }

    /// A copy of the selected candidate, if the selection points at one.
    pub fn selected_candidate(&self) -> (r: Option<CandidateData>)
        ensures
            r is Some <==> self@.selected_candidate() is Some,
            r matches Some(c) ==> self@.selected_candidate() == Some(c@),
    {
        match self.selected {
            Some(p) => {
                if (p as usize) < self.candidates.len() {
                    proof {
                        assert(self@.candidates[p as int] == self.candidates@[p as int]@);
                    }
                    Some(self.candidates[p as usize].clone())
                } else {
                    None
                }
            },
            None => None,
        }
    }

    fn is_disabled(&self, id: u32) -> (r: bool)
        ensures
            r == self@.disabled.contains(id),
    {
        self.disabled_ids.contains(&id)
    }

    /// Whether the confirm button is sensitive.
    pub fn confirm_sensitive(&self) -> (r: bool)
        ensures
            r == self@.can_confirm(),
    {
        match self.selected_candidate() {
            Some(c) => !self.is_disabled(c.id()),
            None => false,
        }
    }

    /// Confirm the selection, unless it is missing or disabled. Gives the
    /// confirmed node and its type, which the selection-confirmed signal carries.
    pub fn confirm(&mut self) -> (r: Option<(u32, CandidateType)>)
        ensures
            old(self)@.can_confirm() ==> {
                let c = old(self)@.selected_candidate()->0;
                &&& r == Some((c.id, c.kind))
                &&& final(self)@ == (DropdownView { confirmed: Some(c.id), ..old(self)@ })
            },
            !old(self)@.can_confirm() ==> r is None && final(self)@ == old(self)@,
    {
        match self.selected_candidate() {
            Some(selected) => {
                if self.is_disabled(selected.id()) {
                    return None;
                }
                let id = selected.id();
                self.confirmed_target_id = Some(id);
                Some((id, selected.kind()))
            },
            None => None,
        }
    }

    /// Go back to choosing: forget the confirmed node and give it, which the
    /// selection-cancelled signal carries.
    pub fn edit(&mut self) -> (r: Option<u32>)
        ensures
            r == old(self)@.confirmed,
            final(self)@ == (DropdownView { confirmed: None, ..old(self)@ }),
    {
        let target_id = self.confirmed_target_id;
        self.confirmed_target_id = None;
        target_id
    }

    /// The id that the remove-requested signal carries: the confirmed node, or 0.
    pub fn remove_requested_id(&self) -> (r: u32)
        ensures
            r == match self@.confirmed {
                Some(id) => id,
                None => 0,
            },
    {
        match self.confirmed_target_id {
            Some(id) => id,
            None => 0,
        }
    }

    pub fn set_removable(&mut self, removable: bool)
        ensures
            final(self)@ == (DropdownView { removable, ..old(self)@ }),
    {
        self.removable = removable;
    }

    pub fn removable(&self) -> (r: bool)
        ensures
            r == self@.removable,
    {
        self.removable
    }

    pub fn confirmed_node_id(&self) -> (r: Option<u32>)
        ensures
            r == self@.confirmed,
    {
        self.confirmed_target_id
    }

    /// The node that a change of the volume slider or of the mute button is
    /// about: the confirmed one, if any.
    pub fn control_target(&self) -> (r: Option<u32>)
        ensures
            r == self@.confirmed,
    {
        self.confirmed_target_id
    }

    /// The candidates on offer, in order.
    pub fn candidates(&self) -> (r: &Vec<CandidateData>)
        ensures
            views(r@) == self@.candidates,
    {
        &self.candidates
    }

    /// Offer new candidates.
    pub fn update_candidates(&mut self, c: Vec<CandidateData>)
        ensures
            final(self)@ == (DropdownView { candidates: views(c@), ..old(self)@ }),
    {
        self.candidates = c;
    }

    /// Replace the disabled ids, keeping the selection. Gives the new
    /// sensitivity of the confirm button when the selection points at a candidate.
    pub fn set_disabled_ids(&mut self, ids: HashSet<u32>) -> (r: Option<bool>)
        ensures
            final(self)@ == (DropdownView { disabled: ids@, ..old(self)@ }),
            r == match final(self)@.selected_candidate() {
                Some(c) => Some(!ids@.contains(c.id)),
                None => None,
            },
    {
        self.disabled_ids = ids;
        match self.selected_candidate() {
            Some(c) => Some(!self.is_disabled(c.id())),
            None => None,
        }
    }
}

/// Which dropdown a node's volume or mute state is shown in.
#[derive(Clone, Copy, Debug, PartialEq, Eq, Structural)]
pub enum DropdownSlot {
    Source,
    /// The target dropdown at this position.
    Target(usize),
}

/// What the status line shows.
pub struct StatusDisplay {
    pub icon: &'static str,
    pub text: String,
}

/// The decimal digits of a number, without sign or leading zeros.
pub open spec fn decimal(n: nat) -> Seq<char>
    decreases n,
{
    if n < 10 {
        seq![digit_char(n)]
    } else {
        decimal(n / 10).push(digit_char(n % 10))
    }
}

/// The character of a decimal digit.
pub open spec fn digit_char(d: nat) -> char {
    (('0' as nat) + d) as char
}

/// The text of the status line.
pub open spec fn status_text(mirroring: bool, device_count: u32, last_event: Option<Seq<char>>) -> Seq<
    char,
> {
    if mirroring {
        match last_event {
            Some(e) => "Mirroring to "@ + decimal(device_count as nat) + " device(s) - "@ + e,
            None => "Mirroring to "@ + decimal(device_count as nat) + " device(s)"@,
        }
    } else {
        "Not mirroring"@
    }
}

/// A decimal digit as a one-character string.
fn digit_str(d: u32) -> (r: &'static str)
    requires
        d < 10,
    ensures
        r@ == seq![digit_char(d as nat)],
{
    proof {
        reveal_strlit("0");
        reveal_strlit("1");
        reveal_strlit("2");
        reveal_strlit("3");
        reveal_strlit("4");
        reveal_strlit("5");
        reveal_strlit("6");
        reveal_strlit("7");
        reveal_strlit("8");
        reveal_strlit("9");
    }
    match d {
        0 => "0",
        1 => "1",
        2 => "2",
        3 => "3",
        4 => "4",
        5 => "5",
        6 => "6",
        7 => "7",
        8 => "8",
        _ => "9",
    }
}

/// Append the decimal digits of a number.
fn push_decimal(out: &mut String, n: u32)
    ensures
        final(out)@ == old(out)@ + decimal(n as nat),
    decreases n,
{
    if n >= 10 {
        push_decimal(out, n / 10);
    }
    out.append(digit_str(n % 10));
    proof {
        if n >= 10 {
            assert(decimal(n as nat) == decimal((n / 10) as nat).push(digit_char((n % 10) as nat)));
        }
        assert(final(out)@ =~= old(out)@ + decimal(n as nat)) by {
            if n >= 10 {
                assert(old(out)@ + decimal((n / 10) as nat) + seq![digit_char((n % 10) as nat)]
                    =~= old(out)@ + decimal(n as nat));
            }
        }
    }
}

/// What the status line shows: whether mirroring is going on, to how many
/// devices, and the last event if one is given.
pub fn status_display(mirroring: bool, device_count: u32, last_event: Option<&str>) -> (r:
    StatusDisplay)
    ensures
        mirroring ==> r.icon@ == "media-playback-start-symbolic"@,
        !mirroring ==> r.icon@ == "media-playback-stop-symbolic"@,
        r.text@ == status_text(
            mirroring,
            device_count,
            match last_event {
                Some(e) => Some(e@),
                None => None,
            },
        ),
{
    if mirroring {
        let mut text = String::from_str("Mirroring to ");
        push_decimal(&mut text, device_count);
        match last_event {
            Some(event) => {
                text.append(" device(s) - ");
                text.append(event);
            },
            None => {
                text.append(" device(s)");
            },
        }
        StatusDisplay { icon: "media-playback-start-symbolic", text }
    } else {
        StatusDisplay {
            icon: "media-playback-stop-symbolic",
            text: String::from_str("Not mirroring"),
        }
    }
}

/// Abstract contents of a [`MainView`].
pub struct MainViewView {
    pub source: DropdownView,
    pub targets: Seq<DropdownView>,
    pub target_candidates: Seq<CandidateView>,
}

impl MainViewView {
    /// The dropdown that shows a node: the source first, then the targets in order.
    pub open spec fn slot_of(self, node_id: u32) -> Option<DropdownSlot> {
        if self.source.confirmed == Some(node_id) {
            Some(DropdownSlot::Source)
        } else if exists|i: int| 0 <= i < self.targets.len() && self.targets[i].confirmed == Some(node_id) {
            Some(DropdownSlot::Target(first_target(self.targets, node_id) as usize))
        } else {
            None
        }
    }
}

/// The position of the first target dropdown that shows the node.
pub open spec fn first_target(targets: Seq<DropdownView>, node_id: u32) -> int {
    choose|i: int|
        0 <= i < targets.len() && targets[i].confirmed == Some(node_id) && forall|j: int|
            0 <= j < i ==> targets[j].confirmed != Some(node_id)
}

/// The main view: the source dropdown, the target dropdowns and the candidates
/// that new target dropdowns start with.
pub struct MainView {
    source_dd: Dropdown,
    target_dds: Vec<Dropdown>,
    target_candidates: Vec<CandidateData>,
}

impl View for MainView {
    type V = MainViewView;

    closed spec fn view(&self) -> MainViewView {
        MainViewView {
            source: self.source_dd@,
            targets: self.target_dds@.map_values(|d: Dropdown| d@),
            target_candidates: views(self.target_candidates@),
        }
    }
}

impl MainView {
    /// A source dropdown and one target dropdown, which cannot be removed.
    pub fn new() -> (m: MainView)
        ensures
            m@.source == DropdownView::fresh(),
            m@.targets.len() == 1,
            m@.targets[0] == DropdownView::fresh(),
            m@.target_candidates == Seq::<CandidateView>::empty(),
    {
        let mut target_dds: Vec<Dropdown> = Vec::new();
        target_dds.push(Dropdown::new());
        let mut m = MainView { source_dd: Dropdown::new(), target_dds, target_candidates: Vec::new() };
        m.update_removable_states();
        proof {
            assert(m@.target_candidates =~= Seq::<CandidateView>::empty());
        }
        m
    }

    pub fn source_dd(&self) -> (r: &Dropdown)
        ensures
            r@ == self@.source,
    {
        &self.source_dd
    }

    pub fn target_count(&self) -> (r: usize)
        ensures
            r == self@.targets.len(),
    {
        self.target_dds.len()
    }

    pub fn target_dd(&self, index: usize) -> (r: &Dropdown)
        requires
            index < self@.targets.len(),
        ensures
            r@ == self@.targets[index as int],
    {
        &self.target_dds[index]
    }

    /// The source dropdown, to act on it; the rest of the view stays as it is.
    pub fn source_dd_mut(&mut self) -> (r: &mut Dropdown)
        ensures
            r@ == old(self)@.source,
            final(self)@ == (MainViewView { source: final(r)@, ..old(self)@ }),
    {
        &mut self.source_dd
    }

    /// The target dropdown at `index`, to act on it; the rest of the view stays as it is.
    pub fn target_dd_mut(&mut self, index: usize) -> (r: &mut Dropdown)
        requires
            index < old(self)@.targets.len(),
        ensures
            r@ == old(self)@.targets[index as int],
            final(self)@ == (MainViewView {
                targets: old(self)@.targets.update(index as int, final(r)@),
                ..old(self)@
            }),
    {
        proof {
            assert forall|d: Dropdown|
                self.target_dds@.update(index as int, d).map_values(|x: Dropdown| x@)
                    =~= #[trigger] self@.targets.update(index as int, d@) by {}
        }
        &mut self.target_dds[index]
    }

    /// Offer new candidates to the source dropdown and to every target
    /// dropdown, and keep the target candidates for dropdowns added later.
    pub fn update_candidates(&mut self, source: Vec<CandidateData>, target: Vec<CandidateData>)
        ensures
            final(self)@.source == (DropdownView { candidates: views(source@), ..old(self)@.source }),
            final(self)@.target_candidates == views(target@),
            final(self)@.targets.len() == old(self)@.targets.len(),
            forall|i: int|
                0 <= i < final(self)@.targets.len() ==> #[trigger] final(self)@.targets[i] == (
                DropdownView { candidates: views(target@), ..old(self)@.targets[i] }),
    {
        self.source_dd.update_candidates(source);
        self.target_candidates = clone_candidates(&target);
        let ghost old_targets = self@.targets;
        let ghost src = self@.source;
        let ghost tc = self@.target_candidates;
        assert(src == (DropdownView { candidates: views(source@), ..old(self)@.source }));
        assert(tc == views(target@));
        let mut i: usize = 0;
        while i < self.target_dds.len()
            invariant
                i <= self.target_dds@.len(),
                self.target_dds@.len() == old_targets.len(),
                self@.source == src,
                self@.target_candidates == tc,
                forall|j: int|
                    0 <= j < i ==> #[trigger] self.target_dds@[j]@ == (DropdownView {
                        candidates: views(target@),
                        ..old_targets[j]
                    }),
                forall|j: int| i <= j < old_targets.len() ==> #[trigger] self.target_dds@[j]@ == old_targets[j],
            decreases self.target_dds@.len() - i,
        {
            let mut dd = self.target_dds.remove(i);
            dd.update_candidates(clone_candidates(&target));
            self.target_dds.insert(i, dd);
            i = i + 1;
        }
        proof {
            assert forall|j: int| 0 <= j < self@.targets.len() implies #[trigger] self@.targets[j] == (
                DropdownView { candidates: views(target@), ..old_targets[j] }) by {
                assert(self@.targets[j] == self.target_dds@[j]@);
            }
        }
    }

    /// Make every target dropdown removable when there is more than one.
    pub fn update_removable_states(&mut self)
        ensures
            final(self)@.source == old(self)@.source,
            final(self)@.target_candidates == old(self)@.target_candidates,
            final(self)@.targets.len() == old(self)@.targets.len(),
            forall|i: int|
                0 <= i < final(self)@.targets.len() ==> #[trigger] final(self)@.targets[i] == (
                DropdownView { removable: old(self)@.targets.len() > 1, ..old(self)@.targets[i] }),
    {
        let removable = self.target_dds.len() > 1;
        let ghost old_targets = self@.targets;
        let ghost src = self@.source;
        let ghost tc = self@.target_candidates;
        let mut i: usize = 0;
        while i < self.target_dds.len()
            invariant
                i <= self.target_dds@.len(),
                self.target_dds@.len() == old_targets.len(),
                self@.source == src,
                self@.target_candidates == tc,
                removable == (old_targets.len() > 1),
                forall|j: int|
                    0 <= j < i ==> #[trigger] self.target_dds@[j]@ == (DropdownView {
                        removable,
                        ..old_targets[j]
                    }),
                forall|j: int| i <= j < old_targets.len() ==> #[trigger] self.target_dds@[j]@ == old_targets[j],
            decreases self.target_dds@.len() - i,
        {
            let mut dd = self.target_dds.remove(i);
            dd.set_removable(removable);
            self.target_dds.insert(i, dd);
            i = i + 1;
        }
        proof {
            assert forall|j: int| 0 <= j < self@.targets.len() implies #[trigger] self@.targets[j] == (
                DropdownView { removable, ..old_targets[j] }) by {
                assert(self@.targets[j] == self.target_dds@[j]@);
            }
        }
    }

    /// Add a target dropdown that offers the current target candidates, and
    /// update which dropdowns can be removed. Gives its position.
    pub fn add_target_dropdown(&mut self) -> (index: usize)
        requires
            old(self)@.targets.len() < usize::MAX,
        ensures
            index == old(self)@.targets.len(),
            final(self)@.source == old(self)@.source,
            final(self)@.target_candidates == old(self)@.target_candidates,
            final(self)@.targets.len() == old(self)@.targets.len() + 1,
            final(self)@.targets[index as int] == (DropdownView {
                candidates: old(self)@.target_candidates,
                removable: final(self)@.targets.len() > 1,
                ..DropdownView::fresh()
            }),
            forall|i: int|
                0 <= i < old(self)@.targets.len() ==> #[trigger] final(self)@.targets[i] == (
                DropdownView { removable: true, ..old(self)@.targets[i] }),
    {
        let mut dd = Dropdown::new();
        dd.update_candidates(clone_candidates(&self.target_candidates));
        let ghost added = dd@;
        assert(added == (DropdownView { candidates: old(self)@.target_candidates, ..DropdownView::fresh() }));
        let index = self.target_dds.len();
        self.target_dds.push(dd);
        assert(self@.targets[index as int] == self.target_dds@[index as int]@);
        assert(self@.targets[index as int] == added);
        self.update_removable_states();
        index
    }

    /// Remove the target dropdown at the position, as its remove button asks,
    /// and update which dropdowns can be removed. Gives the id that the
    /// target-removed signal carries.
    pub fn remove_target_dropdown(&mut self, index: usize) -> (target_id: u32)
        requires
            index < old(self)@.targets.len(),
        ensures
            target_id == match old(self)@.targets[index as int].confirmed {
                Some(id) => id,
                None => 0,
            },
            final(self)@.source == old(self)@.source,
            final(self)@.target_candidates == old(self)@.target_candidates,
            final(self)@.targets.len() == old(self)@.targets.len() - 1,
            forall|i: int|
                0 <= i < final(self)@.targets.len() ==> #[trigger] final(self)@.targets[i] == (
                DropdownView {
                    removable: final(self)@.targets.len() > 1,
                    ..old(self)@.targets.remove(index as int)[i]
                }),
    {
        let dd = self.target_dds.remove(index);
        let target_id = dd.remove_requested_id();
        let ghost mid = self@.targets;
        proof {
            assert(mid =~= old(self)@.targets.remove(index as int));
        }
        self.update_removable_states();
        target_id
    }

    /// The dropdown that shows a node's volume and mute state: the source
    /// dropdown if it has the node confirmed, else the first target dropdown that has.
    pub fn dropdown_for_node(&self, node_id: u32) -> (r: Option<DropdownSlot>)
        ensures
            r == self@.slot_of(node_id),
    {
        if self.source_dd.confirmed_node_id() == Some(node_id) {
            return Some(DropdownSlot::Source);
        }
        let mut i: usize = 0;
        while i < self.target_dds.len()
            invariant
                i <= self.target_dds@.len(),
                self@.source.confirmed != Some(node_id),
                forall|j: int| 0 <= j < i ==> #[trigger] self@.targets[j].confirmed != Some(node_id),
            decreases self.target_dds@.len() - i,
        {
            proof {
                assert(self@.targets[i as int] == self.target_dds@[i as int]@);
            }
            if self.target_dds[i].confirmed_node_id() == Some(node_id) {
                proof {
                    let f = first_target(self@.targets, node_id);
                    assert(self@.targets[i as int].confirmed == Some(node_id));
                    if f != i {
                        if f < i {
                        } else {
                            assert(self@.targets[f].confirmed == Some(node_id));
                        }
                    }
                }
                return Some(DropdownSlot::Target(i));
            }
            i = i + 1;
        }
        None
    }

    /// What the status line shows.
    pub fn set_status(&self, mirroring: bool, device_count: u32, last_event: Option<&str>) -> (r:
        StatusDisplay)
        ensures
            mirroring ==> r.icon@ == "media-playback-start-symbolic"@,
            !mirroring ==> r.icon@ == "media-playback-stop-symbolic"@,
            r.text@ == status_text(
                mirroring,
                device_count,
                match last_event {
                    Some(e) => Some(e@),
                    None => None,
                },
            ),
    {
        status_display(mirroring, device_count, last_event)
    }
}

/// The color a link or port is drawn in.
#[derive(Clone, Copy, Debug, PartialEq, Eq, Structural)]
pub enum ColorSlot {
    Audio,
    Video,
    Midi,
    Unknown,
}

/// The color for a media type: streams and applications share the MIDI color.
pub fn color_for_media_type(media_type: MediaType) -> (r: ColorSlot)
    ensures
        r == match media_type {
            MediaType::Audio => ColorSlot::Audio,
            MediaType::Video => ColorSlot::Video,
            MediaType::Stream | MediaType::Application => ColorSlot::Midi,
            _ => ColorSlot::Unknown,
        },
{
    match media_type {
        MediaType::Audio => ColorSlot::Audio,
        MediaType::Video => ColorSlot::Video,
        MediaType::Stream | MediaType::Application => ColorSlot::Midi,
        _ => ColorSlot::Unknown,
    }
}

/// The style class of a port handle for its media type, if it has one.
pub fn port_css_class(media_type: MediaType) -> (r: Option<&'static str>)
    ensures
        media_type == MediaType::Video ==> (r matches Some(c) && c@ == "video"@),
        media_type == MediaType::Audio ==> (r matches Some(c) && c@ == "audio"@),
        (media_type == MediaType::Application || media_type == MediaType::Stream) ==> (r matches Some(
            c,
        ) && c@ == "midi"@),
        !(media_type == MediaType::Video || media_type == MediaType::Audio || media_type
            == MediaType::Application || media_type == MediaType::Stream) ==> r is None,
{
    match media_type {
        MediaType::Video => Some("video"),
        MediaType::Audio => Some("audio"),
        MediaType::Application | MediaType::Stream => Some("midi"),
        _ => None,
    }
}

/// Whether two ports can be linked: their directions differ.
pub fn is_linkable_to(direction: Direction, other: Direction) -> (r: bool)
    ensures
        r == (direction != other),
{
    direction != other
}

/// The `(output port, input port)` ids of a link made by dropping the port
/// `other_id` onto the port `id` of the given direction.
pub fn link_ends(direction: Direction, id: u32, other_id: u32) -> (r: (u32, u32))
    ensures
        direction == Direction::Output ==> r == (id, other_id),
        direction == Direction::Input ==> r == (other_id, id),
{
    match direction {
        Direction::Output => (id, other_id),
        Direction::Input => (other_id, id),
    }
}

/// The side length of a port handle.
pub const HANDLE_SIZE: i32 = 14;

/// What a widget asks for along one orientation.
#[derive(Clone, Copy, Debug, PartialEq, Eq, Structural)]
pub struct Measure {
    pub minimum: i32,
    pub natural: i32,
    pub minimum_baseline: i32,
    pub natural_baseline: i32,
}

/// A rectangle given to a child widget.
#[derive(Clone, Copy, Debug, PartialEq, Eq, Structural)]
pub struct Allocation {
    pub x: i32,
    pub y: i32,
    pub width: i32,
    pub height: i32,
}

/// Half of a number, rounded toward zero as integer division does.
pub open spec fn half(x: int) -> int {
    if x >= 0 {
        x / 2
    } else {
        -((-x) / 2)
    }
}

fn half_i32(x: i32) -> (r: i32)
    ensures
        r == half(x as int),
{
    if x >= 0 {
        x / 2
    } else {
        let y = -(x as i64);
        -((y / 2) as i32)
    }
}

/// Whether an integer fits an `i32`.
pub open spec fn fits(x: int) -> bool {
    i32::MIN <= x <= i32::MAX
}

/// A port handle asks for a square of the handle size, with no baseline.
pub fn port_handle_measure() -> (m: Measure)
    ensures
        m == (Measure {
            minimum: HANDLE_SIZE,
            natural: HANDLE_SIZE,
            minimum_baseline: -1i32,
            natural_baseline: -1i32,
        }),
{
    Measure { minimum: HANDLE_SIZE, natural: HANDLE_SIZE, minimum_baseline: -1, natural_baseline: -1 }
}

/// The size offered to a port's label when it is measured across: what is
/// left beside half the handle, and at least -1 (no limit).
pub fn port_label_for_size(for_size: i32, nat_handle_width: i32) -> (r: i32)
    requires
        fits(for_size - half(nat_handle_width as int)),
    ensures
        r == if for_size - half(nat_handle_width as int) > -1 {
            for_size - half(nat_handle_width as int)
        } else {
            -1
        },
{
    let v = for_size - half_i32(nat_handle_width);
    if v > -1 {
        v
    } else {
        -1
    }
}

/// A port's size across: half the handle beside the label.
pub fn port_measure_horizontal(handle: Measure, label: Measure) -> (m: Measure)
    requires
        fits(half(handle.minimum as int) + label.minimum),
        fits(half(handle.natural as int) + label.natural),
    ensures
        m == (Measure {
            minimum: (half(handle.minimum as int) + label.minimum) as i32,
            natural: (half(handle.natural as int) + label.natural) as i32,
            minimum_baseline: -1i32,
            natural_baseline: -1i32,
        }),
{
    Measure {
        minimum: half_i32(handle.minimum) + label.minimum,
        natural: half_i32(handle.natural) + label.natural,
        minimum_baseline: -1,
        natural_baseline: -1,
    }
}

/// A port's size along: the larger of label and handle.
pub fn port_measure_vertical(label: Measure, handle: Measure) -> (m: Measure)
    ensures
        m == (Measure {
            minimum: if label.minimum > handle.minimum {
                label.minimum
            } else {
                handle.minimum
            },
            natural: if label.natural > handle.natural {
                label.natural
            } else {
                handle.natural
            },
            minimum_baseline: -1i32,
            natural_baseline: -1i32,
        }),
{
    Measure {
        minimum: if label.minimum > handle.minimum {
            label.minimum
        } else {
            handle.minimum
        },
        natural: if label.natural > handle.natural {
            label.natural
        } else {
            handle.natural
        },
        minimum_baseline: -1,
        natural_baseline: -1,
    }
}

/// Where a port places its handle and its label: an input port has the
/// handle half outside its left edge, an output port half outside its right
/// edge, the handle centered across, and the label beside it.
pub fn port_allocation(
    direction: Direction,
    width: i32,
    height: i32,
    nat_handle_width: i32,
    nat_handle_height: i32,
) -> (r: (Allocation, Allocation))
    requires
        fits(width - half(nat_handle_width as int)),
        fits(height - nat_handle_height),
        nat_handle_width != i32::MIN,
    ensures
        r.0.y == half(height - nat_handle_height),
        r.0.width == nat_handle_width,
        r.0.height == nat_handle_height,
        r.1.width == width - half(nat_handle_width as int),
        r.1.height == height,
        r.1.y == 0,
        direction == Direction::Input ==> r.0.x == -half(nat_handle_width as int) && r.1.x == half(
            nat_handle_width as int,
        ),
        direction == Direction::Output ==> r.0.x == width - half(nat_handle_width as int) && r.1.x
            == 0,
{
    let half_width = half_i32(nat_handle_width);
    let handle_y = half_i32(height - nat_handle_height);
    match direction {
        Direction::Input => (
            Allocation { x: -half_width, y: handle_y, width: nat_handle_width, height: nat_handle_height },
            Allocation { x: half_width, y: 0, width: width - half_width, height },
        ),
        Direction::Output => (
            Allocation {
                x: width - half_width,
                y: handle_y,
                width: nat_handle_width,
                height: nat_handle_height,
            },
            Allocation { x: 0, y: 0, width: width - half_width, height },
        ),
    }
}

/// How a port and its label are aligned: inputs to the start, outputs to the end.
#[derive(Clone, Copy, Debug, PartialEq, Eq, Structural)]
pub enum Alignment {
    Start,
    End,
}

pub fn port_alignment(direction: Direction) -> (r: Alignment)
    ensures
        direction == Direction::Input ==> r == Alignment::Start,
        direction == Direction::Output ==> r == Alignment::End,
{
    match direction {
        Direction::Input => Alignment::Start,
        Direction::Output => Alignment::End,
    }
}

/// Going back to choosing right after a confirmation gives the confirmed node
/// and leaves the dropdown as it was before, with nothing confirmed.
pub proof fn law_edit_undoes_confirm(v: DropdownView)
    requires
        v.can_confirm(),
    ensures
        ({
            let c = v.selected_candidate()->0;
            let confirmed = DropdownView { confirmed: Some(c.id), ..v };
            &&& confirmed.confirmed == Some(c.id)
            &&& (DropdownView { confirmed: None, ..confirmed }) == (DropdownView {
                confirmed: None,
                ..v
            })
        }),
{
}

/// A disabled candidate can never be confirmed.
pub proof fn law_disabled_not_confirmable(v: DropdownView)
    requires
        v.selected_candidate() matches Some(c) && v.disabled.contains(c.id),
    ensures
        !v.can_confirm(),
{
}

/// A number written in decimal reads back as that number.
pub proof fn law_decimal_parses_back(n: u32)
    ensures
        parse_u32_value(decimal(n as nat)) == Some(n),
{
    lemma_decimal(n as nat);
    assert(unsigned_digits(decimal(n as nat)) == decimal(n as nat));
}

/// The decimal digits of a number are digits, start with no sign, and denote it.
pub proof fn lemma_decimal(n: nat)
    ensures
        decimal(n).len() > 0,
        all_digits(decimal(n)),
        decimal(n)[0] != '+',
        digits_value(decimal(n)) == n,
    decreases n,
{
    if n >= 10 {
        lemma_decimal(n / 10);
        let d = decimal(n / 10);
        let full = d.push(digit_char(n % 10));
        assert(full.drop_last() =~= d);
        assert(digit_char(n % 10) as int == '0' as int + n % 10);
        assert(n == (n / 10) * 10 + n % 10);
        assert(decimal(n) == full);
        assert(full.last() == digit_char(n % 10));
        assert(digits_value(full) == digits_value(d) * 10 + (n % 10));
        assert(full[0] == d[0]);
        assert forall|i: int| 0 <= i < full.len() implies crate::text::is_digit(#[trigger] full[i]) by {
            if i < d.len() {
                assert(full[i] == d[i]);
            }
        }
    } else {
        assert(seq![digit_char(n)].drop_last() =~= Seq::<char>::empty());
        assert(digit_char(n) as int == '0' as int + n);
        assert(seq![digit_char(n)].last() == digit_char(n));
        assert(digits_value(seq![digit_char(n)]) == digits_value(Seq::<char>::empty()) * 10 + n);
    }
}

} // verus!
