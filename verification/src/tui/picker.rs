//! The base picker: one input line that filters the ref list and takes free text.
use vstd::prelude::*;

use crate::engine::types::{heads_prefix, ref_label_spec, tags_prefix};
use crate::engine::{ref_label, BaseSource, RepoState, Snapshot};
use crate::tui::dialog::{row_texts, Panel, Row, RowText};
use crate::tui::format::{truncate, truncate_spec};
use crate::tui::sanitize::{sanitize, sanitize_spec};
use crate::strs::{
    cat, contains, copy, decimal, decimal_string, has_sub, is_prefix, lowercase, opt_view, own, push_str, same, starts_with, to_lower,
    views,
};

verus! {

pub const WIDTH: u16 = 60;

#[derive(Debug, Clone, PartialEq, Eq)]
pub enum PickerRow {
    /// `default (<label>)`: forget the pick and re-resolve.
    Reset(String),
    /// `use "<input>"`: the typed text as a base.
    Typed(String),
    /// A listed ref: the qualified name it submits and its markers.
    Ref { qualified: String, markers: Vec<&'static str> },
}

/// A picker row as characters.
pub enum RowView {
    Reset(Seq<char>),
    Typed(Seq<char>),
    Ref(Seq<char>, Seq<Seq<char>>),
}

pub open spec fn marker_views(markers: Seq<&'static str>) -> Seq<Seq<char>> {
    markers.map_values(|m: &'static str| m@)
}

impl View for PickerRow {
    type V = RowView;

    open spec fn view(&self) -> RowView {
        match self {
            PickerRow::Reset(t) => RowView::Reset(t@),
            PickerRow::Typed(t) => RowView::Typed(t@),
            PickerRow::Ref { qualified, markers } => RowView::Ref(qualified@, marker_views(markers@)),
        }
    }
}

pub open spec fn row_views(rows: Seq<PickerRow>) -> Seq<RowView> {
    rows.map_values(|r: PickerRow| r@)
}

impl PickerRow {
    /// What `SetBase` is sent; `None` is the reset row.
    pub fn submit(&self) -> (r: Option<String>)
        ensures
            match self@ {
                RowView::Reset(_) => r is None,
                RowView::Typed(t) => r matches Some(x) && x@ == t,
                RowView::Ref(q, _) => r matches Some(x) && x@ == q,
            },
    {
        match self {
            PickerRow::Reset(_) => None,
            PickerRow::Typed(text) => Some(copy(text)),
            PickerRow::Ref { qualified, .. } => Some(copy(qualified)),
        }
    }
}

#[derive(Debug, Default)]
pub struct Picker {
    pub input: String,
    /// Index into `rows()`.
    pub cursor: usize,
    /// First list row drawn; kept so the window follows the cursor.
    pub offset: usize,
    /// Shown under the input line.
    pub error: Option<String>,
    /// Reply sequence preceding this pick; its answer is the first snapshot beyond it.
    pub pending: Option<u64>,
    /// Set when the answer was a success: the shell drops the picker.
    pub done: bool,
    /// The token sent with this opening's `LoadRefs`.
    pub token: u64,
    /// The last `refs_seq` the cursor was placed for.
    pub seen_refs_seq: u64,
}

/// The candidates a picker opened with `token` shows: none until its own `LoadRefs` is answered.
pub open spec fn listed_refs(token: u64, s: Snapshot) -> Seq<String> {
    if s.refs_seq == token {
        match s.refs {
            Some(a) => a@,
            None => Seq::empty(),
        }
    } else {
        Seq::empty()
    }
}

/// Lines taken by the input line and, when there is one, the error line.
pub open spec fn head_lines(p: Picker) -> nat {
    if p.error is Some { 2 } else { 1 }
}

pub open spec fn visible_spec(p: Picker, height: u16) -> nat {
    let room = height - 4 - head_lines(p);
    if room >= 1 { room as nat } else { 1 }
}

pub open spec fn window_spec(offset: nat, cursor: nat, visible: nat) -> nat {
    let low = if offset <= cursor { offset } else { cursor };
    let floor = if cursor >= visible - 1 { (cursor - (visible - 1)) as nat } else { 0 };
    if low >= floor { low } else { floor }
}

pub open spec fn clamp_index(x: int, len: nat) -> nat {
    if x <= 0 { 0 } else if x >= len - 1 { (len - 1) as nat } else { x as nat }
}


pub open spec fn marker_picked() -> Seq<char> {
    seq!['p', 'i', 'c', 'k', 'e', 'd']
}

pub open spec fn marker_config() -> Seq<char> {
    seq!['c', 'o', 'n', 'f', 'i', 'g']
}

pub open spec fn marker_current() -> Seq<char> {
    seq!['c', 'u', 'r', 'r', 'e', 'n', 't']
}

pub open spec fn marker_tag() -> Seq<char> {
    seq!['t', 'a', 'g']
}

/// `picked` or `config` on the row of the current base, after how it was chosen.
pub open spec fn source_markers(s: Snapshot, r: Seq<char>) -> Seq<Seq<char>> {
    match s.base {
        Some(b) => if b.requested@ == r {
            match b.source {
                BaseSource::Picked => seq![marker_picked()],
                BaseSource::Config => seq![marker_config()],
                BaseSource::Default => seq![],
            }
        } else {
            seq![]
        },
        None => seq![],
    }
}

/// The qualified name of the checked-out branch, when there is one.
pub open spec fn checked_out(s: Snapshot) -> Option<Seq<char>> {
    match s.repo {
        RepoState::Repo { branch: Some(b), .. } => Some(heads_prefix() + b@),
        _ => None,
    }
}

pub open spec fn markers_spec(s: Snapshot, r: Seq<char>) -> Seq<Seq<char>> {
    source_markers(s, r) + (if checked_out(s) == Some(r) {
        seq![marker_current()]
    } else {
        seq![]
    }) + (if is_prefix(tags_prefix(), r) {
        seq![marker_tag()]
    } else {
        seq![]
    })
}

/// The listed refs whose lowercased label holds `needle`, in list order, with their markers.
pub open spec fn matching_spec(refs: Seq<Seq<char>>, needle: Seq<char>, s: Snapshot) -> Seq<RowView>
    decreases refs.len(),
{
    if refs.len() == 0 {
        seq![]
    } else {
        let prev = matching_spec(refs.drop_last(), needle, s);
        let r = refs.last();
        if has_sub(lowercase(ref_label_spec(r)), needle) {
            prev.push(RowView::Ref(r, markers_spec(s, r)))
        } else {
            prev
        }
    }
}

/// Whether `r` is a ref row that submits `c`.
pub open spec fn submits(r: RowView, c: Seq<char>) -> bool {
    r matches RowView::Ref(q, _) && q == c
}

/// The first index from `i` on of a ref row that submits `c`; `rows.len()` when there is none.
pub open spec fn first_ref_from(rows: Seq<RowView>, c: Seq<char>, i: nat) -> nat
    decreases rows.len() - i,
{
    if i >= rows.len() {
        rows.len()
    } else if submits(rows[i as int], c) {
        i
    } else {
        first_ref_from(rows, c, i + 1)
    }
}

/// The current base's row moved to the front.
pub open spec fn front_spec(rows: Seq<RowView>, current: Option<Seq<char>>) -> Seq<RowView> {
    match current {
        Some(c) => {
            let i = first_ref_from(rows, c, 0);
            if i < rows.len() {
                seq![rows[i as int]] + rows.remove(i as int)
            } else {
                rows
            }
        },
        None => rows,
    }
}

pub open spec fn default_text(s: Snapshot) -> Seq<char> {
    let label = match s.default_base {
        Some(d) => ref_label_spec(d@),
        None => seq!['n', 'o', 'n', 'e'],
    };
    seq!['d', 'e', 'f', 'a', 'u', 'l', 't', ' ', '('] + label + seq![')']
}

pub open spec fn is_listed(refs: Seq<Seq<char>>, input: Seq<char>) -> bool {
    exists|i: int| 0 <= i < refs.len() && ref_label_spec(#[trigger] refs[i]) == input
}

pub open spec fn current_base(s: Snapshot) -> Option<Seq<char>> {
    match s.base {
        Some(b) => Some(b.requested@),
        None => None,
    }
}

/// The rows of a picker: the reset row, the typed row when the input is not exactly a listed
/// label, then the refs whose label holds the input ignoring case, the current base's first.
pub open spec fn rows_spec(p: Picker, s: Snapshot) -> Seq<RowView> {
    let refs = views(listed_refs(p.token, s));
    let input = p.input@;
    let typed = if input.len() > 0 && !is_listed(refs, input) {
        seq![RowView::Typed(input)]
    } else {
        seq![]
    };
    seq![RowView::Reset(default_text(s))] + typed + front_spec(
        matching_spec(refs, lowercase(input), s),
        current_base(s),
    )
}


fn push_marker(markers: &mut Vec<&'static str>, m: &'static str)
    ensures
        marker_views(final(markers)@) == marker_views(old(markers)@).push(m@),
{
    markers.push(m);
    proof {
        assert(marker_views(markers@) =~= marker_views(old(markers)@).push(m@));
    }
}

/// The markers of the listed ref `r`.
fn markers_for(snapshot: &Snapshot, r: &String) -> (v: Vec<&'static str>)
    ensures
        marker_views(v@) == markers_spec(*snapshot, r@),
{
    proof {
        reveal_strlit("picked");
        reveal_strlit("config");
        reveal_strlit("current");
        reveal_strlit("tag");
        reveal_strlit("refs/heads/");
        reveal_strlit("refs/tags/");
        assert("refs/heads/"@ == heads_prefix());
        assert("refs/tags/"@ == tags_prefix());
    }
    let mut markers: Vec<&'static str> = Vec::new();
    let ghost s = *snapshot;
    proof {
        assert(marker_views(markers@) =~= Seq::<Seq<char>>::empty());
    }
    if let Some(b) = &snapshot.base {
        if same(b.requested.as_str(), r.as_str()) {
            match b.source {
                BaseSource::Picked => push_marker(&mut markers, "picked"),
                BaseSource::Config => push_marker(&mut markers, "config"),
                BaseSource::Default => {},
            }
        }
    }
    let ghost first = marker_views(markers@);
    proof {
        assert(first =~~= source_markers(s, r@));
    }
    let is_current = match &snapshot.repo {
        RepoState::Repo { branch: Some(branch), .. } => {
            let qualified = cat("refs/heads/", branch.as_str());
            same(qualified.as_str(), r.as_str())
        },
        _ => false,
    };
    proof {
        assert(is_current == (checked_out(s) == Some(r@)));
    }
    if is_current {
        push_marker(&mut markers, "current");
    }
    let ghost second = marker_views(markers@);
    proof {
        assert(second =~~= first + (if checked_out(s) == Some(r@) {
            seq![marker_current()]
        } else {
            seq![]
        }));
    }
    let tagged = starts_with(r.as_str(), "refs/tags/");
    if tagged {
        push_marker(&mut markers, "tag");
    }
    proof {
        assert(marker_views(markers@) =~~= second + (if is_prefix(tags_prefix(), r@) {
            seq![marker_tag()]
        } else {
            seq![]
        }));
    }
    markers
}

proof fn lemma_first_ref_skip(rows: Seq<RowView>, c: Seq<char>, i: nat)
    requires
        i <= rows.len(),
        forall|j: int| 0 <= j < i ==> !submits(#[trigger] rows[j], c),
    ensures
        first_ref_from(rows, c, 0) == first_ref_from(rows, c, i),
    decreases i,
{
    if i > 0 {
        lemma_first_ref_skip(rows, c, (i - 1) as nat);
        assert(!submits(rows[i - 1], c));
    }
}

/// The index of the first ref row that submits `c`; `rows.len()` when there is none.
fn first_submitting(rows: &Vec<PickerRow>, c: &String) -> (r: usize)
    ensures
        r == first_ref_from(row_views(rows@), c@, 0),
{
    let ghost views0 = row_views(rows@);
    let mut i: usize = 0;
    while i < rows.len()
        invariant
            views0 == row_views(rows@),
            i <= rows@.len(),
            forall|j: int| 0 <= j < i ==> !submits(#[trigger] views0[j], c@),
        decreases rows@.len() - i,
    {
        let hit = match &rows[i] {
            PickerRow::Ref { qualified, .. } => same(qualified.as_str(), c.as_str()),
            _ => false,
        };
        proof {
            assert(views0[i as int] == rows@[i as int]@);
        }
        if hit {
            proof {
                lemma_first_ref_skip(views0, c@, i as nat);
            }
            return i;
        }
        i = i + 1;
    }
    proof {
        lemma_first_ref_skip(views0, c@, i as nat);
    }
    i
}

/// Moves the first ref row that submits `current` to the front.
fn move_to_front(rows: &mut Vec<PickerRow>, current: &Option<String>)
    ensures
        row_views(final(rows)@) == front_spec(
            row_views(old(rows)@),
            match *current {
                Some(c) => Some(c@),
                None => None,
            },
        ),
{
    if let Some(c) = current {
        let i = first_submitting(rows, c);
        let ghost views0 = row_views(rows@);
        if i < rows.len() {
            let row = rows.remove(i);
            rows.insert(0, row);
            proof {
                assert(row_views(rows@) =~= seq![views0[i as int]] + views0.remove(i as int));
            }
        }
    }
}


/// A ref row when `want_ref`, else a typed row.
pub open spec fn is_kind(r: RowView, want_ref: bool) -> bool {
    if want_ref {
        r is Ref
    } else {
        r is Typed
    }
}

/// The first index from `i` on of a row of the kind; `rows.len()` when there is none.
pub open spec fn first_kind_from(rows: Seq<RowView>, want_ref: bool, i: nat) -> nat
    decreases rows.len() - i,
{
    if i >= rows.len() {
        rows.len()
    } else if is_kind(rows[i as int], want_ref) {
        i
    } else {
        first_kind_from(rows, want_ref, i + 1)
    }
}

/// Where the cursor goes after an edit: the reset row for an empty input, else the first
/// match, else the typed row.
pub open spec fn follow_cursor(rows: Seq<RowView>, input_empty: bool) -> nat {
    if input_empty {
        0
    } else if first_kind_from(rows, true, 0) < rows.len() {
        first_kind_from(rows, true, 0)
    } else if first_kind_from(rows, false, 0) < rows.len() {
        first_kind_from(rows, false, 0)
    } else {
        0
    }
}

proof fn lemma_first_kind_skip(rows: Seq<RowView>, want_ref: bool, i: nat)
    requires
        i <= rows.len(),
        forall|j: int| 0 <= j < i ==> !is_kind(#[trigger] rows[j], want_ref),
    ensures
        first_kind_from(rows, want_ref, 0) == first_kind_from(rows, want_ref, i),
    decreases i,
{
    if i > 0 {
        lemma_first_kind_skip(rows, want_ref, (i - 1) as nat);
        assert(!is_kind(rows[i - 1], want_ref));
    }
}

/// The index of the first row of the kind; `rows.len()` when there is none.
fn first_of_kind(rows: &Vec<PickerRow>, want_ref: bool) -> (r: usize)
    ensures
        r == first_kind_from(row_views(rows@), want_ref, 0),
{
    let ghost views0 = row_views(rows@);
    let mut i: usize = 0;
    while i < rows.len()
        invariant
            views0 == row_views(rows@),
            i <= rows@.len(),
            forall|j: int| 0 <= j < i ==> !is_kind(#[trigger] views0[j], want_ref),
        decreases rows@.len() - i,
    {
        let hit = match &rows[i] {
            PickerRow::Ref { .. } => want_ref,
            PickerRow::Typed(_) => !want_ref,
            PickerRow::Reset(_) => false,
        };
        proof {
            assert(views0[i as int] == rows@[i as int]@);
        }
        if hit {
            proof {
                lemma_first_kind_skip(views0, want_ref, i as nat);
            }
            return i;
        }
        i = i + 1;
    }
    proof {
        lemma_first_kind_skip(views0, want_ref, i as nat);
    }
    i
}


/// `parts` joined with `sep` between each two.
pub open spec fn join_spec(parts: Seq<Seq<char>>, sep: Seq<char>) -> Seq<char>
    decreases parts.len(),
{
    if parts.len() == 0 {
        seq![]
    } else if parts.len() == 1 {
        parts[0]
    } else {
        join_spec(parts.drop_last(), sep) + sep + parts.last()
    }
}

/// `[str]::join` over the markers with ` · `.
fn join_markers(markers: &Vec<&'static str>) -> (r: String)
    ensures
        r@ == join_spec(marker_views(markers@), " · "@),
{
    let mut out = String::new();
    let mut i: usize = 0;
    while i < markers.len()
        invariant
            i <= markers@.len(),
            out@ == join_spec(marker_views(markers@.take(i as int)), " · "@),
        decreases markers@.len() - i,
    {
        proof {
            assert(marker_views(markers@.take(i + 1)).drop_last() =~= marker_views(markers@.take(i as int)));
            assert(marker_views(markers@.take(i + 1)).last() == markers@[i as int]@);
        }
        if i > 0 {
            push_str(&mut out, " · ");
        } else {
            proof {
                assert(marker_views(markers@.take(0)) =~= Seq::<Seq<char>>::empty());
            }
        }
        push_str(&mut out, markers[i]);
        i = i + 1;
    }
    proof {
        assert(markers@.take(markers@.len() as int) == markers@);
    }
    out
}

/// The label an entry row of the list shows, before sanitizing.
pub open spec fn entry_label(r: RowView) -> Seq<char> {
    match r {
        RowView::Reset(t) => t,
        RowView::Typed(t) => "use \""@ + t + "\""@,
        RowView::Ref(q, _) => ref_label_spec(q),
    }
}

pub open spec fn entry_value(r: RowView) -> Seq<char> {
    match r {
        RowView::Ref(_, m) => join_spec(m, " · "@),
        _ => seq![],
    }
}

pub open spec fn entry_row(r: RowView) -> RowText {
    RowText::Entry(truncate_spec(sanitize_spec(entry_label(r)), 30), entry_value(r), true)
}

/// `rows[offset..offset + n]`, cut at the end.
pub open spec fn window_rows(rows: Seq<RowView>, offset: nat, n: nat) -> Seq<RowView> {
    if offset >= rows.len() {
        seq![]
    } else if offset + n >= rows.len() {
        rows.skip(offset as int)
    } else {
        rows.subrange(offset as int, (offset + n) as int)
    }
}

/// The width the input and error lines are cut to: two frame columns and a two-space indent.
pub open spec fn line_cells(width: u16) -> nat {
    if width >= 5 { (width - 4) as nat } else { 1 }
}

pub open spec fn head_rows(p: Picker, width: u16) -> Seq<RowText> {
    let line = line_cells(width);
    seq![RowText::Text(truncate_spec(sanitize_spec("> "@ + p.input@ + "_"@), line))] + match p.error {
        Some(e) => seq![RowText::Warn(truncate_spec(sanitize_spec(e@), line))],
        None => seq![],
    }
}

pub open spec fn count_refs(rows: Seq<RowView>) -> nat
    decreases rows.len(),
{
    if rows.len() == 0 {
        0
    } else {
        count_refs(rows.drop_last()) + if rows.last() is Ref { 1nat } else { 0nat }
    }
}

pub open spec fn footer_spec(p: Picker, s: Snapshot) -> Seq<char> {
    if p.pending is Some {
        "picking…"@
    } else if s.refs_seq != p.token {
        "loading refs…"@
    } else if listed_refs(p.token, s).len() == 0 {
        "no refs listed; type a revision"@
    } else if s.refs_overflow {
        decimal(count_refs(rows_spec(p, s))) + " shown, more exist · type to filter"@
    } else {
        "Enter pick · Esc cancel · type to filter"@
    }
}

proof fn lemma_count_refs_bound(rows: Seq<RowView>)
    ensures
        count_refs(rows) <= rows.len(),
    decreases rows.len(),
{
    if rows.len() > 0 {
        lemma_count_refs_bound(rows.drop_last());
    }
}

/// How many of `rows` are ref rows.
fn count_ref_rows(rows: &Vec<PickerRow>) -> (n: usize)
    ensures
        n == count_refs(row_views(rows@)),
{
    let mut n: usize = 0;
    let mut i: usize = 0;
    while i < rows.len()
        invariant
            i <= rows@.len(),
            n == count_refs(row_views(rows@.take(i as int))),
            n <= i,
        decreases rows@.len() - i,
    {
        proof {
            assert(row_views(rows@.take(i + 1)).drop_last() =~= row_views(rows@.take(i as int)));
            assert(row_views(rows@.take(i + 1)).last() == rows@[i as int]@);
        }
        if let PickerRow::Ref { .. } = &rows[i] {
            n = n + 1;
        }
        i = i + 1;
    }
    proof {
        assert(rows@.take(rows@.len() as int) == rows@);
    }
    n
}

impl Picker {
    pub fn open(token: u64) -> (r: Self)
        ensures
            r.token == token,
            r.input@ == Seq::<char>::empty(),
            r.cursor == 0,
            r.offset == 0,
            r.error is None,
            r.pending is None,
            !r.done,
            r.seen_refs_seq == 0,
    {
        Picker {
            input: String::new(),
            cursor: 0,
            offset: 0,
            error: None,
            pending: None,
            done: false,
            token,
            seen_refs_seq: 0,
        }
    }

    /// The candidates of this opening; empty until `LoadRefs` is answered, so a stale list is never shown.
    pub fn refs<'a>(&self, snapshot: &'a Snapshot) -> (r: &'a [String])
        ensures
            r@ == listed_refs(self.token, *snapshot),
    {
        if snapshot.refs_seq == self.token {
            match &snapshot.refs {
                Some(list) => list.as_slice(),
                None => &[],
            }
        } else {
            &[]
        }
    }


    pub fn rows(&self, snapshot: &Snapshot) -> (out: Vec<PickerRow>)
        ensures
            row_views(out@) == rows_spec(*self, *snapshot),
    {
        proof {
            reveal_strlit("none");
            reveal_strlit("default (");
            reveal_strlit(")");
        }
        let label = match &snapshot.default_base {
            Some(d) => ref_label(d.as_str()),
            None => own("none"),
        };
        let reset = cat(cat("default (", label.as_str()).as_str(), ")");
        proof {
            assert(reset@ == default_text(*snapshot));
        }
        let mut rows: Vec<PickerRow> = Vec::new();
        rows.push(PickerRow::Reset(reset));
        let refs = self.refs(snapshot);
        let ghost refv = views(refs@);
        let mut listed = false;
        let mut i: usize = 0;
        while i < refs.len()
            invariant
                refv == views(refs@),
                i <= refs@.len(),
                listed == exists|j: int| 0 <= j < i && ref_label_spec(#[trigger] refv[j]) == self.input@,
            decreases refs@.len() - i,
        {
            let l = ref_label(refs[i].as_str());
            if same(l.as_str(), self.input.as_str()) {
                listed = true;
            }
            proof {
                assert(refv[i as int] == refs@[i as int]@);
            }
            i = i + 1;
        }
        if !self.input.as_str().is_empty() && !listed {
            rows.push(PickerRow::Typed(copy(&self.input)));
        }
        let ghost head = row_views(rows@);
        proof {
            let input = self.input@;
            assert(refv == views(listed_refs(self.token, *snapshot)));
            assert(listed == is_listed(refv, input));
            assert(head =~= seq![RowView::Reset(default_text(*snapshot))] + (if input.len() > 0 && !is_listed(refv, input) {
                seq![RowView::Typed(input)]
            } else {
                seq![]
            }));
        }
        let needle = to_lower(self.input.as_str());
        let mut matching: Vec<PickerRow> = Vec::new();
        let mut k: usize = 0;
        while k < refs.len()
            invariant
                refv == views(refs@),
                k <= refs@.len(),
                needle@ == lowercase(self.input@),
                row_views(matching@) == matching_spec(refv.take(k as int), needle@, *snapshot),
            decreases refs@.len() - k,
        {
            let r = &refs[k];
            let l = ref_label(r.as_str());
            let low = to_lower(l.as_str());
            proof {
                assert(refv.take(k + 1).drop_last() == refv.take(k as int));
                assert(refv.take(k + 1).last() == r@);
            }
            if contains(low.as_str(), needle.as_str()) {
                let markers = markers_for(snapshot, r);
                let ghost prev = matching@;
                matching.push(PickerRow::Ref { qualified: copy(r), markers });
                proof {
                    assert(row_views(matching@) == row_views(prev).push(matching@.last()@));
                }
            }
            k = k + 1;
        }
        proof {
            assert(refv.take(refs@.len() as int) == refv);
        }
        let current = match &snapshot.base {
            Some(b) => Some(copy(&b.requested)),
            None => None,
        };
        proof {
            assert(match current {
                Some(c) => Some(c@),
                None => None,
            } == current_base(*snapshot));
        }
        move_to_front(&mut matching, &current);
        let ghost moved = row_views(matching@);
        rows.append(&mut matching);
        proof {
            assert(row_views(rows@) =~= head + moved);
        }
        rows
    }


    /// After an edit: the reset row for an empty input, else the first match, else the typed row.
    pub fn retarget(&mut self, snapshot: &Snapshot)
        ensures
            final(self).cursor == follow_cursor(
                rows_spec(*old(self), *snapshot),
                old(self).input@.len() == 0,
            ),
            final(self).offset == 0,
            final(self).error is None,
            final(self).input == old(self).input,
            final(self).pending == old(self).pending,
            final(self).done == old(self).done,
            final(self).token == old(self).token,
            final(self).seen_refs_seq == old(self).seen_refs_seq,
    {
        self.follow_input(snapshot);
        self.error = None;
    }

    fn follow_input(&mut self, snapshot: &Snapshot)
        ensures
            final(self).cursor == follow_cursor(
                rows_spec(*old(self), *snapshot),
                old(self).input@.len() == 0,
            ),
            final(self).offset == 0,
            final(self).error == old(self).error,
            final(self).input == old(self).input,
            final(self).pending == old(self).pending,
            final(self).done == old(self).done,
            final(self).token == old(self).token,
            final(self).seen_refs_seq == old(self).seen_refs_seq,
    {
        let rows = self.rows(snapshot);
        let cursor = if self.input.as_str().is_empty() {
            0
        } else {
            let r = first_of_kind(&rows, true);
            if r < rows.len() {
                r
            } else {
                let t = first_of_kind(&rows, false);
                if t < rows.len() {
                    t
                } else {
                    0
                }
            }
        };
        self.cursor = cursor;
        self.offset = 0;
    }

    /// The engine's answers: a new ref list re-places the cursor; the pending `SetBase` closes or errs.
    pub fn observe(&mut self, snapshot: &Snapshot)
        ensures
            ({
                let placed = snapshot.refs_seq == old(self).token && old(self).seen_refs_seq
                    != old(self).token;
                let answered = old(self).pending matches Some(sent) && snapshot.pick_seq > sent;
                &&& final(self).seen_refs_seq == if placed {
                    snapshot.refs_seq
                } else {
                    old(self).seen_refs_seq
                }
                &&& final(self).cursor == if placed {
                    follow_cursor(rows_spec(*old(self), *snapshot), old(self).input@.len() == 0)
                } else {
                    old(self).cursor as nat
                }
                &&& final(self).offset == if placed {
                    0
                } else {
                    old(self).offset as nat
                }
                &&& final(self).pending == if answered {
                    None
                } else {
                    old(self).pending
                }
                &&& final(self).done == (old(self).done || (answered && snapshot.pick_error is None))
                &&& opt_view(final(self).error) == if answered && snapshot.pick_error is Some {
                    opt_view(snapshot.pick_error)
                } else {
                    opt_view(old(self).error)
                }
                &&& final(self).input == old(self).input
                &&& final(self).token == old(self).token
            }),
    {
        if snapshot.refs_seq == self.token && self.seen_refs_seq != self.token {
            self.seen_refs_seq = snapshot.refs_seq;
            self.follow_input(snapshot);
        }
        if let Some(sent) = self.pending {
            if snapshot.pick_seq > sent {
                self.pending = None;
                match &snapshot.pick_error {
                    Some(error) => self.error = Some(copy(error)),
                    None => self.done = true,
                }
            }
        }
    }


    /// `width` is the panel's drawn width: the input and error lines are cut to it so
    /// `dialog::render` never wraps them, and every row is exactly one line.
    pub fn panel(&self, snapshot: &Snapshot, width: u16, height: u16) -> (out: Panel)
        requires
            self.cursor + 2 <= usize::MAX,
        ensures
            out.title@ == "Compare against"@,
            out.footer@ == footer_spec(*self, *snapshot),
            row_texts(out.rows@) == head_rows(*self, width) + window_rows(
                rows_spec(*self, *snapshot),
                window_spec(self.offset as nat, self.cursor as nat, visible_spec(*self, height)),
                visible_spec(*self, height),
            ).map_values(|r: RowView| entry_row(r)),
            out.cursor == Some(
                (head_lines(*self) + self.cursor - window_spec(
                    self.offset as nat,
                    self.cursor as nat,
                    visible_spec(*self, height),
                )) as usize,
            ),
            out.offset == 0,
            rows_spec(*self, *snapshot).len() <= usize::MAX,
    {
        let rows = self.rows(snapshot);
        let _ = rows.len();
        let footer = if self.pending.is_some() {
            own("picking…")
        } else if snapshot.refs_seq != self.token {
            own("loading refs…")
        } else if self.refs(snapshot).len() == 0 {
            own("no refs listed; type a revision")
        } else if snapshot.refs_overflow {
            let listed = count_ref_rows(&rows);
            proof {
                lemma_count_refs_bound(row_views(rows@));
            }
            cat(decimal_string(listed as u128).as_str(), " shown, more exist · type to filter")
        } else {
            own("Enter pick · Esc cancel · type to filter")
        };
        let line: usize = if width >= 5 { width as usize - 4 } else { 1 };
        let prompt = cat(cat("> ", self.input.as_str()).as_str(), "_");
        let mut panel_rows: Vec<Row> = Vec::new();
        panel_rows.push(Row::Text(truncate(sanitize(prompt.as_str()).as_str(), line)));
        if let Some(error) = &self.error {
            panel_rows.push(Row::Warn(truncate(sanitize(error.as_str()).as_str(), line)));
        }
        let head = panel_rows.len();
        let ghost head_view = row_texts(panel_rows@);
        proof {
            assert(head_view =~= head_rows(*self, width));
        }
        let visible = self.visible(height);
        let offset = self.window(visible);
        let ghost all = row_views(rows@);
        let ghost shown = window_rows(all, offset as nat, visible as nat);
        let mut k: usize = offset;
        while k < rows.len() && k - offset < visible
            invariant
                all == row_views(rows@),
                shown == window_rows(all, offset as nat, visible as nat),
                offset <= k,
                k - offset <= visible,
                offset < rows@.len() ==> k <= rows@.len(),
                offset >= rows@.len() ==> k == offset,
                k - offset <= shown.len(),
                row_texts(panel_rows@) == head_view + shown.take(k - offset).map_values(|r: RowView| entry_row(r)),
            decreases rows@.len() - k,
        {
            let (label, value) = match &rows[k] {
                PickerRow::Reset(text) => (copy(text), String::new()),
                PickerRow::Typed(text) => (cat(cat("use \"", text.as_str()).as_str(), "\""), String::new()),
                PickerRow::Ref { qualified, markers } => (ref_label(qualified.as_str()), join_markers(markers)),
            };
            let ghost before = row_texts(panel_rows@);
            panel_rows.push(Row::Entry { label: truncate(sanitize(label.as_str()).as_str(), 30), value, enabled: true });
            proof {
                assert(shown[k - offset] == all[k as int]);
                assert(all[k as int] == rows@[k as int]@);
                assert(row_texts(panel_rows@) =~= before.push(entry_row(all[k as int])));
                assert(shown.take(k + 1 - offset) =~= shown.take(k - offset).push(shown[k - offset]));
                assert(shown.take(k + 1 - offset).map_values(|r: RowView| entry_row(r)) =~= shown.take(k - offset).map_values(|r: RowView| entry_row(r)).push(entry_row(shown[k - offset])));
            }
            k = k + 1;
        }
        proof {
            assert(shown.len() == k - offset);
            assert(shown.take(k - offset) =~= shown);
        }
        Panel {
            title: own("Compare against"),
            rows: panel_rows,
            footer,
            cursor: Some(head + self.cursor - offset),
            offset: 0,
        }
    }

    pub fn head(&self) -> (r: usize)
        ensures
            r == head_lines(*self),
    {
        if self.error.is_some() { 2 } else { 1 }
    }

    /// List rows that fit: the frame and footer take four lines, the input and error lines the rest.
    pub fn visible(&self, height: u16) -> (r: usize)
        ensures
            r == visible_spec(*self, height),
            r >= 1,
    {
        let h = height as usize;
        let taken = 4 + self.head();
        if h > taken && h - taken >= 1 {
            h - taken
        } else {
            1
        }
    }

    /// First list row drawn for a window of `visible` rows: the cursor stays inside it.
    pub fn window(&self, visible: usize) -> (r: usize)
        requires
            visible >= 1,
        ensures
            r == window_spec(self.offset as nat, self.cursor as nat, visible as nat),
            r <= self.cursor,
            self.cursor < r + visible,
    {
        let low = if self.offset <= self.cursor { self.offset } else { self.cursor };
        let floor = if self.cursor >= visible - 1 { self.cursor - (visible - 1) } else { 0 };
        if low >= floor { low } else { floor }
    }

    /// Moves the cursor, keeping it inside `[0, len)` and the window around it; false when nothing moved.
    pub fn move_by(&mut self, delta: isize, len: usize, visible: usize) -> (moved: bool)
        requires
            old(self).cursor <= isize::MAX,
            len <= isize::MAX,
            isize::MIN <= old(self).cursor + delta <= isize::MAX,
        ensures
            ({
                let next = clamp_index(old(self).cursor + delta, len as nat);
                if len == 0 || next == old(self).cursor {
                    !moved && *final(self) == *old(self)
                } else {
                    &&& moved
                    &&& final(self).cursor == next
                    &&& final(self).offset == window_spec(
                        old(self).offset as nat,
                        next,
                        if visible >= 1 { visible as nat } else { 1 },
                    )
                    &&& final(self).input == old(self).input
                    &&& final(self).error == old(self).error
                    &&& final(self).pending == old(self).pending
                    &&& final(self).done == old(self).done
                    &&& final(self).token == old(self).token
                    &&& final(self).seen_refs_seq == old(self).seen_refs_seq
                }
            }),
    {
        if len == 0 {
            return false;
        }
        let target: isize = self.cursor as isize + delta;
        let top: isize = len as isize - 1;
        let next: usize = if target <= 0 {
            0
        } else if target >= top {
            top as usize
        } else {
            target as usize
        };
        if next == self.cursor {
            return false;
        }
        self.cursor = next;
        let v = if visible >= 1 { visible } else { 1 };
        self.offset = self.window(v);
        true
    }
}

} // verus!
