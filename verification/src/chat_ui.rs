//! The server's screen: a log of messages, a log of errors and the list of
//! current users, and what is drawn of them in which pane.

use vstd::prelude::*;
use vstd::string::*;
use crate::layout::{
    Area, Split, inner_extent, is_cut, lies_within, margin_swallows, split_fits, try_split,
};
use crate::text::same_text;

verus! {

broadcast use vstd::string::group_string_axioms;

/// The colour a pane and its lines are drawn in.
#[derive(Clone, Copy, Debug, PartialEq, Eq, Structural)]
pub enum Tone {
    /// White text.
    Normal,
    /// Red text.
    Alert,
}

/// The three logs shown on the server's screen.
pub struct ChatUI {
    messages: Vec<String>,
    errors: Vec<String>,
    users: Vec<String>,
}

/// The contents of the server's screen.
pub struct ChatUIView {
    pub messages: Seq<Seq<char>>,
    pub errors: Seq<Seq<char>>,
    pub users: Seq<Seq<char>>,
}

/// The contents of a list of strings.
pub open spec fn lines_view(lines: Seq<String>) -> Seq<Seq<char>> {
    lines.map_values(|s: String| s@)
}

impl View for ChatUI {
    type V = ChatUIView;

    closed spec fn view(&self) -> ChatUIView {
        ChatUIView {
            messages: lines_view(self.messages@),
            errors: lines_view(self.errors@),
            users: lines_view(self.users@),
        }
    }
}

/// One bordered pane of the screen: where it goes, its title, its lines and
/// their colour.
#[derive(Clone, Debug, PartialEq, Eq)]
pub struct Pane {
    pub area: Area,
    pub title: String,
    pub lines: Vec<String>,
    pub tone: Tone,
}

/// The contents of a pane.
pub struct PaneView {
    pub area: Area,
    pub title: Seq<char>,
    pub lines: Seq<Seq<char>>,
    pub tone: Tone,
}

impl View for Pane {
    type V = PaneView;

    open spec fn view(&self) -> PaneView {
        PaneView { area: self.area, title: self.title@, lines: lines_view(self.lines@), tone: self.tone }
    }
}

/// What one drawing of the screen shows: a titled frame and the panes
/// inside it, left to right.
#[derive(Clone, Debug, PartialEq, Eq)]
pub struct FramePlan {
    pub frame: Area,
    pub frame_title: String,
    pub panes: Vec<Pane>,
}

/// The contents of a drawing.
pub struct FramePlanView {
    pub frame: Area,
    pub frame_title: Seq<char>,
    pub panes: Seq<PaneView>,
}

impl View for FramePlan {
    type V = FramePlanView;

    open spec fn view(&self) -> FramePlanView {
        FramePlanView {
            frame: self.frame,
            frame_title: self.frame_title@,
            panes: self.panes@.map_values(|p: Pane| p@),
        }
    }
}

/// The drawing of `ui` with the frame at `frame` and the panes at `areas`:
/// the message log, the current users and the error log, in that order, the
/// last one in red.
pub open spec fn frame_spec(ui: ChatUIView, frame: Area, areas: Seq<Area>) -> FramePlanView {
    FramePlanView {
        frame,
        frame_title: "[X5-Chat Server]"@,
        panes: seq![
            PaneView { area: areas[0], title: "Message logs"@, lines: ui.messages, tone: Tone::Normal },
            PaneView { area: areas[1], title: "Current users"@, lines: ui.users, tone: Tone::Normal },
            PaneView { area: areas[2], title: "Error logs"@, lines: ui.errors, tone: Tone::Alert },
        ],
    }
}

/// The share of the screen's height given to the band above the frame, the
/// frame and the band below it.
pub open spec fn band_percentages() -> Seq<u16> {
    seq![10u16, 80u16, 10u16]
}

/// The share of the frame's width given to each pane.
pub open spec fn pane_percentages() -> Seq<u16> {
    seq![33u16, 34u16, 33u16]
}

/// Whether an entry differs from `name`.
pub open spec fn other_than(name: Seq<char>) -> spec_fn(Seq<char>) -> bool {
    |u: Seq<char>| u != name
}

/// Copies of `lines`.
fn copy_lines(lines: &Vec<String>) -> (res: Vec<String>)
    ensures
        lines_view(res@) == lines_view(lines@),
{
    let mut res: Vec<String> = Vec::new();
    let mut k: usize = 0;
    while k < lines.len()
        invariant
            k <= lines@.len(),
            res@.len() == k,
            forall|j: int| 0 <= j < k ==> #[trigger] res@[j]@ == lines@[j]@,
        decreases lines@.len() - k,
    {
        res.push(lines[k].clone());
        k = k + 1;
    }
    assert(lines_view(res@) =~= lines_view(lines@));
    res
}

impl ChatUI {
    /// An empty screen.
    pub fn new() -> (res: ChatUI)
        ensures
            res@.messages == Seq::<Seq<char>>::empty(),
            res@.errors == Seq::<Seq<char>>::empty(),
            res@.users == Seq::<Seq<char>>::empty(),
    {
        let res = ChatUI { messages: Vec::new(), errors: Vec::new(), users: Vec::new() };
        assert(res@.messages =~= Seq::<Seq<char>>::empty());
        assert(res@.errors =~= Seq::<Seq<char>>::empty());
        assert(res@.users =~= Seq::<Seq<char>>::empty());
        res
    }

    /// Appends `message` to the message log.
    pub fn push_message(&mut self, message: String)
        ensures
            final(self)@.messages == old(self)@.messages.push(message@),
            final(self)@.errors == old(self)@.errors,
            final(self)@.users == old(self)@.users,
    {
        self.messages.push(message);
        assert(self@.messages =~= old(self)@.messages.push(message@));
    }

    /// Appends `error` to the error log, which is drawn in red.
    pub fn push_error(&mut self, error: String)
        ensures
            final(self)@.errors == old(self)@.errors.push(error@),
            final(self)@.messages == old(self)@.messages,
            final(self)@.users == old(self)@.users,
    {
        self.errors.push(error);
        assert(self@.errors =~= old(self)@.errors.push(error@));
    }

    /// Appends `user` to the list of current users.
    pub fn add_user(&mut self, user: String)
        ensures
            final(self)@.users == old(self)@.users.push(user@),
            final(self)@.messages == old(self)@.messages,
            final(self)@.errors == old(self)@.errors,
    {
        self.users.push(user);
        assert(self@.users =~= old(self)@.users.push(user@));
    }

    /// Removes every entry `username` from the list of current users,
    /// keeping the others in their order.
    pub fn delete_user(&mut self, username: &str)
        ensures
            final(self)@.users == old(self)@.users.filter(other_than(username@)),
            final(self)@.messages == old(self)@.messages,
            final(self)@.errors == old(self)@.errors,
    {
        let ghost keep = other_than(username@);
        let ghost all = lines_view(self.users@);
        let mut kept: Vec<String> = Vec::new();
        let mut k: usize = 0;
        assert(all.take(0) =~= Seq::<Seq<char>>::empty());
        proof {
            reveal(Seq::filter);
        }
        while k < self.users.len()
            invariant
                k <= self.users@.len(),
                self@ == old(self)@,
                all == lines_view(self.users@),
                keep == other_than(username@),
                lines_view(kept@) == all.take(k as int).filter(keep),
            decreases self.users@.len() - k,
        {
            let ghost before = all.take(k as int);
            let ghost entry = self.users@[k as int]@;
            let ghost kept_before = lines_view(kept@);
            assert(all.take(k + 1) =~= before.push(entry));
            proof {
                before.lemma_filter_push(entry, keep);
            }
            if !same_text(self.users[k].as_str(), username) {
                kept.push(self.users[k].clone());
                assert(lines_view(kept@) =~= kept_before.push(entry));
            } else {
                assert(!keep(entry));
            }
            k = k + 1;
        }
        assert(all.take(self.users@.len() as int) =~= all);
        self.users = kept;
    }

    /// The drawing of this screen with the frame at `frame` and the three
    /// panes at `areas`.
    pub fn compose_frame(&self, frame: Area, areas: &Vec<Area>) -> (res: FramePlan)
        requires
            areas@.len() == 3,
        ensures
            res@ == frame_spec(self@, frame, areas@),
            res@.panes.len() == 3,
            res@.panes[0].lines == self@.messages,
            res@.panes[1].lines == self@.users,
            res@.panes[2].lines == self@.errors,
    {
        let messages = Pane {
            area: areas[0],
            title: String::from_str("Message logs"),
            lines: copy_lines(&self.messages),
            tone: Tone::Normal,
        };
        let users = Pane {
            area: areas[1],
            title: String::from_str("Current users"),
            lines: copy_lines(&self.users),
            tone: Tone::Normal,
        };
        let errors = Pane {
            area: areas[2],
            title: String::from_str("Error logs"),
            lines: copy_lines(&self.errors),
            tone: Tone::Alert,
        };
        let mut panes: Vec<Pane> = Vec::new();
        panes.push(messages);
        panes.push(users);
        panes.push(errors);
        let res = FramePlan { frame, frame_title: String::from_str("[X5-Chat Server]"), panes };
        assert(res@.panes =~= frame_spec(self@, frame, areas@).panes);
        res
    }

    /// The drawing of this screen with the frame in the middle one of the
    /// three `bands` the screen was cut into: the frame is cut into three
    /// panes of 33%, 34% and 33% of its width inside a margin of one cell.
    /// `None` exactly where tui's cell arithmetic would overflow for that cut.
    pub fn draw_from_bands(&self, bands: &Vec<Area>) -> (res: Option<FramePlan>)
        requires
            bands@.len() == 3,
        ensures
            res is Some <==> split_fits(bands@[1], 1, Split::Horizontal, pane_percentages()),
            res matches Some(plan) ==> plan@.panes.len() == 3 && plan@.panes[0].lines
                == self@.messages && plan@.panes[1].lines == self@.users && plan@.panes[2].lines
                == self@.errors,
            res matches Some(plan) ==> plan.frame == bands@[1] && exists|panes: Seq<Area>|
                #![trigger frame_spec(self@, bands@[1], panes)]
                is_cut(panes, bands@[1], 1, Split::Horizontal, pane_percentages()) && plan@
                    == frame_spec(self@, bands@[1], panes),
    {
        let frame = bands[1];
        let mut shares: Vec<u16> = Vec::new();
        shares.push(33);
        shares.push(34);
        shares.push(33);
        assert(shares@ =~= pane_percentages());
        match try_split(Split::Horizontal, 1, &shares, frame) {
            Some(panes) => {
                let plan = self.compose_frame(frame, &panes);
                assert(plan@ == frame_spec(self@, bands@[1], panes@));
                Some(plan)
            },
            None => None,
        }
    }

    /// The drawing of this screen on a terminal of size `screen`: the
    /// screen is cut into three bands of 10%, 80% and 10% of its height
    /// inside a margin of one cell, the middle band holds the frame, and
    /// the frame is cut into three panes as `draw_from_bands` does. `None`
    /// where tui's cell arithmetic would overflow for either cut; a drawing
    /// is owed on every screen of ordinary size (see `drawable`).
    pub fn draw(&self, screen: Area) -> (res: Option<FramePlan>)
        ensures
            !split_fits(screen, 1, Split::Vertical, band_percentages()) ==> res is None,
            drawable(screen) ==> res is Some,
            res matches Some(plan) ==> plan@.panes.len() == 3 && plan@.panes[0].lines
                == self@.messages && plan@.panes[1].lines == self@.users && plan@.panes[2].lines
                == self@.errors,
            res matches Some(plan) ==> exists|bands: Seq<Area>, panes: Seq<Area>|
                #![trigger frame_spec(self@, bands[1], panes)]
                is_cut(bands, screen, 1, Split::Vertical, band_percentages()) && is_cut(
                    panes,
                    bands[1],
                    1,
                    Split::Horizontal,
                    pane_percentages(),
                ) && plan.frame == bands[1] && plan@ == frame_spec(self@, bands[1], panes),
    {
        let mut cuts: Vec<u16> = Vec::new();
        cuts.push(10);
        cuts.push(80);
        cuts.push(10);
        assert(cuts@ =~= band_percentages());
        let bands = match try_split(Split::Vertical, 1, &cuts, screen) {
            Some(bands) => bands,
            None => return None,
        };
        proof {
            if drawable(screen) {
                lemma_frame_fits(screen, bands@[1]);
            }
        }
        let res = self.draw_from_bands(&bands);
        proof {
            if res is Some {
                let plan = res->0;
                let panes = choose|panes: Seq<Area>|
                    #![trigger frame_spec(self@, bands@[1], panes)]
                    is_cut(panes, bands@[1], 1, Split::Horizontal, pane_percentages()) && plan@
                        == frame_spec(self@, bands@[1], panes);
                assert(is_cut(bands@, screen, 1, Split::Vertical, band_percentages()) && is_cut(
                    panes,
                    bands@[1],
                    1,
                    Split::Horizontal,
                    pane_percentages(),
                ) && plan.frame == bands@[1] && plan@ == frame_spec(self@, bands@[1], panes));
            }
        }
        res
    }
}

/// A screen of ordinary size: the cut into bands fits, the screen ends
/// above the largest cell row, and 34% of its width times its width fits in
/// a cell coordinate. Any screen at the origin up to 1927 columns by 821
/// rows is one.
pub open spec fn drawable(screen: Area) -> bool {
    &&& split_fits(screen, 1, Split::Vertical, band_percentages())
    &&& screen.y + screen.height <= u16::MAX
    &&& 34 * screen.width <= u16::MAX
}

/// On a screen of ordinary size, any frame lying within the screen's margin
/// can be cut into panes.
proof fn lemma_frame_fits(screen: Area, frame: Area)
    requires
        drawable(screen),
        lies_within(frame, screen, 1),
    ensures
        split_fits(frame, 1, Split::Horizontal, pane_percentages()),
{
    let shares = pane_percentages();
    let e = inner_extent(frame, 1, Split::Horizontal);
    assert(0 <= e <= screen.width) by {
        if !margin_swallows(frame, 1) && margin_swallows(screen, 1) {
            assert(frame.width <= 1);
        }
    }
    assert forall|k: int| 0 <= k < shares.len() implies #[trigger] shares[k] * e <= u16::MAX by {
        assert(shares[k] <= 34);
        assert(shares[k] * e <= 34 * screen.width) by (nonlinear_arith)
            requires
                0 <= shares[k] <= 34,
                0 <= e <= screen.width,
        ;
    }
}

/// Every drawing shows each log whole, in the order its entries were
/// added: the message pane lists every message, the users pane every
/// current user, the error pane every error; and a message pushed before
/// drawing shows as one more line after all the earlier ones.
pub proof fn law_panes_show_whole_logs(ui: ChatUIView, frame: Area, areas: Seq<Area>, message: Seq<char>)
    ensures
        frame_spec(ui, frame, areas).panes[0].lines == ui.messages,
        frame_spec(ui, frame, areas).panes[1].lines == ui.users,
        frame_spec(ui, frame, areas).panes[2].lines == ui.errors,
        frame_spec(ui, frame, areas).panes[0].lines.len() == ui.messages.len(),
        frame_spec(
            ChatUIView { messages: ui.messages.push(message), errors: ui.errors, users: ui.users },
            frame,
            areas,
        ).panes[0].lines == frame_spec(ui, frame, areas).panes[0].lines.push(message),
{
}

/// Drawing the same screen twice gives the same frame title and the same
/// titles, lines and colours pane by pane, with frames spanning the screen's
/// width to within two cells of each other. Where tui's solver rounds is
/// not fixed by its arguments, so equal areas are not promised.
pub proof fn law_redraw_agrees(
    ui: ChatUIView,
    screen: Area,
    bands1: Seq<Area>,
    panes1: Seq<Area>,
    bands2: Seq<Area>,
    panes2: Seq<Area>,
)
    requires
        is_cut(bands1, screen, 1, Split::Vertical, band_percentages()),
        is_cut(panes1, bands1[1], 1, Split::Horizontal, pane_percentages()),
        is_cut(bands2, screen, 1, Split::Vertical, band_percentages()),
        is_cut(panes2, bands2[1], 1, Split::Horizontal, pane_percentages()),
    ensures
        frame_spec(ui, bands1[1], panes1).frame_title == frame_spec(ui, bands2[1], panes2).frame_title,
        forall|k: int|
            0 <= k < 3 ==> {
                let p1 = #[trigger] frame_spec(ui, bands1[1], panes1).panes[k];
                let p2 = frame_spec(ui, bands2[1], panes2).panes[k];
                p1.title == p2.title && p1.lines == p2.lines && p1.tone == p2.tone
            },
        -2 <= bands1[1].x - bands2[1].x <= 2,
        -2 <= bands1[1].width - bands2[1].width <= 2,
{
}

/// Removing a user takes away every entry of that name and nothing else;
/// adding a user and removing it again leaves the list as removing it alone.
pub proof fn law_delete_user(users: Seq<Seq<char>>, name: Seq<char>)
    ensures
        !users.filter(other_than(name)).contains(name),
        forall|u: Seq<char>| u != name ==> (users.filter(other_than(name)).contains(u) <==> #[trigger] users.contains(u)),
        users.push(name).filter(other_than(name)) == users.filter(other_than(name)),
{
    broadcast use vstd::seq_lib::group_filter_ensures;

    let keep = other_than(name);
    users.lemma_filter_push(name, keep);
    assert forall|u: Seq<char>| u != name implies (users.filter(keep).contains(u) <==> #[trigger] users.contains(u)) by {
        if users.contains(u) {
            let i = choose|i: int| 0 <= i < users.len() && users[i] == u;
            users.lemma_filter_contains(keep, i);
        }
        if users.filter(keep).contains(u) {
            users.lemma_filter_contains_rev(keep, u);
        }
    }
    if users.filter(keep).contains(name) {
        let i = choose|i: int| 0 <= i < users.filter(keep).len() && users.filter(keep)[i] == name;
        users.lemma_filter_pred(keep, i);
    }
}

} // verus!
