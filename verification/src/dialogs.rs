//! The list of dialogs and the labels it is shown with.

use vstd::prelude::*;
use vstd::string::StrSliceExecFns;
use vstd::string::StringExecFns;

verus! {

/// The dialog that the list has selected.
#[derive(Debug, Clone, Copy, PartialEq, Eq, Structural)]
pub struct DialogsSelected {
    /// The id of the selected dialog's chat.
    pub selected: i64,
}

/// The decimal digit of `d`, for `d` below ten.
pub open spec fn digit(d: nat) -> char {
    if d == 0 {
        '0'
    } else if d == 1 {
        '1'
    } else if d == 2 {
        '2'
    } else if d == 3 {
        '3'
    } else if d == 4 {
        '4'
    } else if d == 5 {
        '5'
    } else if d == 6 {
        '6'
    } else if d == 7 {
        '7'
    } else if d == 8 {
        '8'
    } else {
        '9'
    }
}

/// `n` in decimal, without leading zeros.
pub open spec fn decimal(n: nat) -> Seq<char>
    decreases n,
{
    if n < 10 {
        seq![digit(n)]
    } else {
        decimal(n / 10).push(digit(n % 10))
    }
}

/// A count in brackets; nothing for no count.
pub open spec fn count_label(cnt: Seq<char>) -> Seq<char> {
    if cnt.len() == 0 {
        Seq::empty()
    } else {
        seq!['('] + cnt + seq![')']
    }
}

/// The digits of an unread count; nothing unless the count is positive.
pub open spec fn unread_digits(ucnt: i32) -> Seq<char> {
    if ucnt > 0 {
        decimal(ucnt as nat)
    } else {
        Seq::empty()
    }
}

/// The length in bytes of a string of the characters `name`.
pub open spec fn byte_len(name: Seq<char>) -> usize {
    vstd::utf8::encode_utf8(name).len() as usize
}

/// The label of a dialog: a name of more bytes than the width leaves room
/// for, once the digits of the count are taken off, is cut to that many
/// characters and marked with two dots.
pub open spec fn name_label(name: Seq<char>, width: nat, ucnt: i32) -> Seq<char> {
    let cnt = unread_digits(ucnt);
    let room = width - cnt.len();
    if byte_len(name) > room {
        name.take(if room < name.len() { room } else { name.len() as int }) + seq!['.', '.']
            + count_label(cnt)
    } else {
        name + count_label(cnt)
    }
}

/// The one-character string of a decimal digit.
fn digit_str(d: u32) -> (s: &'static str)
    requires
        d < 10,
    ensures
        s@ == seq![digit(d as nat)],
{
    proof {
        reveal_strlit("0");
        reveal_strlit("1");
        reveal_strlit("2");
        reveal_strlit("3");
        reveal_strlit("4");
        reveal_strlit("5");
        reveal_strlit("6");
        reveal_strlit("7");
        reveal_strlit("8");
        reveal_strlit("9");
    }
    let s = if d == 0 {
        "0"
    } else if d == 1 {
        "1"
    } else if d == 2 {
        "2"
    } else if d == 3 {
        "3"
    } else if d == 4 {
        "4"
    } else if d == 5 {
        "5"
    } else if d == 6 {
        "6"
    } else if d == 7 {
        "7"
    } else if d == 8 {
        "8"
    } else {
        "9"
    };
    assert(s@ =~= seq![digit(d as nat)]);
    s
}

/// Writes `n` in decimal.
pub fn decimal_string(n: u32) -> (s: String)
    ensures
        s@ == decimal(n as nat),
{
    let mut rest: u32 = n / 10;
    let mut out = String::from_str(digit_str(n % 10));
    while rest > 0
        invariant
            decimal(n as nat) == (if rest == 0 {
                out@
            } else {
                decimal(rest as nat) + out@
            }),
        decreases rest,
    {
        let mut next = String::from_str(digit_str(rest % 10));
        next.append(out.as_str());
        proof {
            if rest >= 10 {
                assert(decimal(rest as nat) + out@ =~= decimal((rest / 10) as nat) + next@);
            } else {
                assert(decimal(rest as nat) + out@ =~= next@);
            }
        }
        out = next;
        rest = rest / 10;
    }
    out
}

/// Puts a count in brackets; an empty count gives an empty label.
pub fn display_count(cnt: String) -> (label: String)
    ensures
        label@ == count_label(cnt@),
{
    if cnt.as_str().unicode_len() == 0 {
        String::new()
    } else {
        proof {
            reveal_strlit("(");
            reveal_strlit(")");
        }
        let mut label = String::from_str("(");
        label.append(cnt.as_str());
        label.append(")");
        assert(label@ =~= seq!['('] + cnt@ + seq![')']);
        label
    }
}

/// The label of a dialog called `name` with `ucnt` unread messages, for a
/// column `width` wide.
pub fn display_name(name: &str, width: usize, ucnt: i32) -> (label: String)
    requires
        unread_digits(ucnt).len() <= width,
    ensures
        label@ == name_label(name@, width as nat, ucnt),
{
    let cnt = if ucnt > 0 {
        decimal_string(ucnt as u32)
    } else {
        String::new()
    };
    let room = width - cnt.as_str().unicode_len();
    assert(cnt@ =~= unread_digits(ucnt));
    if name.len() > room {
        let chars = name.unicode_len();
        let kept = if room < chars {
            room
        } else {
            chars
        };
        proof {
            reveal_strlit("..");
        }
        let mut label = String::from_str(name.substring_char(0, kept));
        label.append("..");
        label.append(display_count(cnt).as_str());
        assert(label@ =~= name@.take(kept as int) + seq!['.', '.'] + count_label(cnt@));
        label
    } else {
        let mut label = String::from_str(name);
        label.append(display_count(cnt).as_str());
        assert(label@ =~= name@ + count_label(cnt@));
        label
    }
}

/// What the list reads of a dialog.
#[derive(Debug)]
pub struct Dialog {
    /// The id of the dialog's chat.
    pub chat_id: i64,
    /// The name of the dialog's chat.
    pub name: String,
    /// When the last message was sent, in seconds since the epoch, if there
    /// is a last message.
    pub last_message: Option<i64>,
    /// How many messages are unread.
    pub unread: i32,
    /// Whether the dialog is a folder.
    pub folder: bool,
}

impl Clone for Dialog {
    fn clone(&self) -> (copy: Self)
        ensures
            copy == *self,
    {
        Dialog {
            chat_id: self.chat_id,
            name: self.name.clone(),
            last_message: self.last_message,
            unread: self.unread,
            folder: self.folder,
        }
    }
}

/// The dialogs of the client, lightest first.
#[derive(Debug, Clone)]
pub struct OrderedDialogs {
    header: Vec<i64>,
    hidden: Vec<i64>,
    all: Vec<Dialog>,
}

/// A list of dialogs as contracts see it.
pub struct OrderedDialogsView {
    /// The chats that are pinned to the head of the list.
    pub header: Seq<i64>,
    /// The chats that are not shown.
    pub hidden: Seq<i64>,
    /// Every dialog, in the order of the list.
    pub all: Seq<Dialog>,
}

impl View for OrderedDialogs {
    type V = OrderedDialogsView;

    closed spec fn view(&self) -> OrderedDialogsView {
        OrderedDialogsView { header: self.header@, hidden: self.hidden@, all: self.all@ }
    }
}

/// One line of the list as it is shown.
#[derive(Debug, Clone, PartialEq, Eq)]
pub struct Row {
    /// The text of the line.
    pub label: String,
    /// Whether the line is the selected one.
    pub selected: bool,
}

/// The weight of a dialog at the time `now`: the seconds since its last
/// message, and 255 more unless its chat is pinned. Lighter dialogs come
/// first.
pub open spec fn weight(header: Seq<i64>, d: Dialog, now: i64) -> int {
    (if header.contains(d.chat_id) {
        0int
    } else {
        255int
    }) + (match d.last_message {
        Some(sent) => now - sent,
        None => 0int,
    })
}

/// Whether `k` is where a dialog of weight `w` goes: behind the run of
/// dialogs at the head of the list that are lighter than `w`.
pub open spec fn is_slot(header: Seq<i64>, all: Seq<Dialog>, w: int, now: i64, k: int) -> bool {
    &&& 0 <= k <= all.len()
    &&& forall|i: int| 0 <= i < k ==> weight(header, #[trigger] all[i], now) < w
    &&& k < all.len() ==> weight(header, all[k], now) >= w
}

/// Whether the list is in order at the time `now`: no dialog is heavier than
/// one behind it.
pub open spec fn in_order(header: Seq<i64>, all: Seq<Dialog>, now: i64) -> bool {
    forall|i: int, j: int|
        0 <= i <= j < all.len() ==> weight(header, #[trigger] all[i], now) <= weight(
            header,
            #[trigger] all[j],
            now,
        )
}

/// The dialogs of `all` whose chat is not among `hidden`, in the order of
/// `all`.
pub open spec fn visible(all: Seq<Dialog>, hidden: Seq<i64>) -> Seq<Dialog>
    decreases all.len(),
{
    if all.len() == 0 {
        Seq::empty()
    } else if hidden.contains(all.last().chat_id) {
        visible(all.drop_last(), hidden)
    } else {
        visible(all.drop_last(), hidden).push(all.last())
    }
}

/// Whether `i` is the place of the first dialog of chat `selected`.
pub open spec fn is_first_of(list: Seq<Dialog>, selected: i64, i: int) -> bool {
    &&& 0 <= i < list.len()
    &&& list[i].chat_id == selected
    &&& forall|j: int| 0 <= j < i ==> (#[trigger] list[j]).chat_id != selected
}

/// The place of the first dialog of chat `selected`; the head of the list
/// where there is none.
pub open spec fn selected_index(list: Seq<Dialog>, selected: i64) -> int {
    if exists|i: int| is_first_of(list, selected, i) {
        choose|i: int| is_first_of(list, selected, i)
    } else {
        0
    }
}

/// Whether line `i` is shown when line `index` is selected and `count` lines
/// fit on either side.
pub open spec fn in_window(i: int, index: int, count: int) -> bool {
    index - count < i < index + count
}

/// The line of a dialog: a letter for its kind, then its label cut to the
/// width less three.
pub open spec fn row_label(d: Dialog, width: nat) -> Seq<char> {
    (if d.folder {
        seq!['F', ':', ' ']
    } else {
        seq!['D', ':', ' ']
    }) + name_label(d.name@, (width - 3) as nat, d.unread)
}

/// The lines of the first `upto` dialogs of `list` that fall into the window
/// round `index`.
pub open spec fn rows_of(list: Seq<Dialog>, upto: int, index: int, count: int, width: nat) -> Seq<
    (Seq<char>, bool),
>
    decreases upto,
{
    if upto <= 0 {
        Seq::empty()
    } else if in_window(upto - 1, index, count) {
        rows_of(list, upto - 1, index, count, width).push(
            (row_label(list[upto - 1], width), upto - 1 == index),
        )
    } else {
        rows_of(list, upto - 1, index, count, width)
    }
}

/// Whether every dialog of `list` in the window round `index` has an unread
/// count whose digits fit a line of `width`.
pub open spec fn counts_fit(list: Seq<Dialog>, index: int, count: int, width: nat) -> bool {
    forall|i: int|
        0 <= i < list.len() && in_window(i, index, count) ==> unread_digits(
            (#[trigger] list[i]).unread,
        ).len() + 3 <= width
}

/// The lines of a list of rows, as contracts see them.
pub open spec fn rows_view(rows: Seq<Row>) -> Seq<(Seq<char>, bool)> {
    rows.map_values(|r: Row| (r.label@, r.selected))
}

/// Calls `chrono::Utc::now` and takes the result's `timestamp`: the seconds
/// between the epoch and the system's clock at the time of the call. Nothing
/// is promised of the number. `Utc::now` gives up where the system's clock
/// stands before the epoch.
#[verifier::external_body]
fn now_timestamp() -> (now: i64) {
    chrono::Utc::now().timestamp()
}

/// Whether `id` is among `ids`.
fn among(ids: &Vec<i64>, id: i64) -> (found: bool)
    ensures
        found == ids@.contains(id),
{
    let mut i: usize = 0;
    while i < ids.len()
        invariant
            i <= ids.len(),
            forall|j: int| 0 <= j < i ==> ids@[j] != id,
        decreases ids.len() - i,
    {
        if ids[i] == id {
            return true;
        }
        i = i + 1;
    }
    false
}

impl OrderedDialogs {
    /// The empty list: nothing pinned, nothing hidden, no dialogs.
    pub fn new() -> (list: Self)
        ensures
            list@.header == Seq::<i64>::empty(),
            list@.hidden == Seq::<i64>::empty(),
            list@.all == Seq::<Dialog>::empty(),
    {
        OrderedDialogs { header: Vec::new(), all: Vec::new(), hidden: Vec::new() }
    }

    /// Pins `chat` to the head of the list.
    pub fn pin(&mut self, chat: i64)
        ensures
            final(self)@ == (OrderedDialogsView {
                header: old(self)@.header.push(chat),
                ..old(self)@
            }),
    {
        self.header.push(chat);
    }

    /// Keeps `chat` out of what the list shows.
    pub fn conceal(&mut self, chat: i64)
        ensures
            final(self)@ == (OrderedDialogsView {
                hidden: old(self)@.hidden.push(chat),
                ..old(self)@
            }),
    {
        self.hidden.push(chat);
    }

    /// The weight of `d` at the time `now`.
    pub fn width_at(&self, d: &Dialog, now: i64) -> (w: i128)
        ensures
            w == weight(self@.header, *d, now),
    {
        let base: i128 = if !among(&self.header, d.chat_id) {
            255
        } else {
            0
        };
        match d.last_message {
            Some(sent) => base + (now as i128 - sent as i128),
            None => base,
        }
    }

    /// The weight of `d` by the system's clock.
    pub fn width(&self, d: &Dialog) -> (w: i128)
        ensures
            exists|now: i64| w == weight(self@.header, *d, now),
    {
        let now = now_timestamp();
        self.width_at(d, now)
    }

    /// Puts `d` where its weight at the time `now` places it, and answers
    /// where that is.
    pub fn insert_at(&mut self, d: Dialog, now: i64) -> (k: usize)
        requires
            old(self)@.all.len() < usize::MAX,
        ensures
            is_slot(old(self)@.header, old(self)@.all, weight(old(self)@.header, d, now), now, k as int),
            final(self)@ == (OrderedDialogsView {
                all: old(self)@.all.insert(k as int, d),
                ..old(self)@
            }),
    {
        let w = self.width_at(&d, now);
        let mut k: usize = 0;
        let mut found = false;
        while k < self.all.len() && !found
            invariant
                *self == *old(self),
                w == weight(self@.header, d, now),
                k <= self.all.len(),
                forall|i: int| 0 <= i < k ==> weight(self@.header, #[trigger] self@.all[i], now) < w,
                found ==> k < self.all.len() && weight(self@.header, self@.all[k as int], now) >= w,
            decreases self.all.len() - k + (if found { 0int } else { 1int }),
        {
            if self.width_at(&self.all[k], now) < w {
                k = k + 1;
            } else {
                found = true;
            }
        }
        self.all.insert(k, d);
        k
    }

    /// Puts `d` where its weight by the system's clock places it.
    pub fn insert(&mut self, d: Dialog)
        requires
            old(self)@.all.len() < usize::MAX,
        ensures
            exists|now: i64, k: int|
                {
                    &&& is_slot(
                        old(self)@.header,
                        old(self)@.all,
                        weight(old(self)@.header, d, now),
                        now,
                        k,
                    )
                    &&& final(self)@ == (OrderedDialogsView {
                        all: old(self)@.all.insert(k, d),
                        ..old(self)@
                    })
                },
    {
        let now = now_timestamp();
        let k = self.insert_at(d, now);
        assert(is_slot(
            old(self)@.header,
            old(self)@.all,
            weight(old(self)@.header, d, now),
            now,
            k as int,
        ));
    }

    /// Forgets every dialog; what is pinned and hidden stays.
    pub fn clear(&mut self)
        ensures
            final(self)@ == (OrderedDialogsView { all: Seq::empty(), ..old(self)@ }),
    {
        self.all.clear();
    }

    /// The dialogs that are shown, in the order of the list.
    pub fn list(&self) -> (shown: Vec<Dialog>)
        ensures
            shown@ == visible(self@.all, self@.hidden),
    {
        let mut shown: Vec<Dialog> = Vec::new();
        let mut i: usize = 0;
        while i < self.all.len()
            invariant
                i <= self.all.len(),
                shown@ == visible(self@.all.take(i as int), self@.hidden),
            decreases self.all.len() - i,
        {
            proof {
                assert(self@.all.take(i + 1).drop_last() =~= self@.all.take(i as int));
            }
            if !among(&self.hidden, self.all[i].chat_id) {
                shown.push(self.all[i].clone());
            }
            i = i + 1;
        }
        proof {
            assert(self@.all.take(i as int) =~= self@.all);
        }
        shown
    }
}

/// The line of `d` for a list whose lines are `width` wide.
pub fn display_row(d: &Dialog, width: usize, selected: bool) -> (row: Row)
    requires
        unread_digits(d.unread).len() + 3 <= width,
    ensures
        row.label@ == row_label(*d, width as nat),
        row.selected == selected,
{
    proof {
        reveal_strlit("F: ");
        reveal_strlit("D: ");
    }
    let mut label = if d.folder {
        String::from_str("F: ")
    } else {
        String::from_str("D: ")
    };
    label.append(display_name(d.name.as_str(), width - 3, d.unread).as_str());
    assert(label@ =~= row_label(*d, width as nat));
    Row { label, selected }
}

/// The lines that an area `width` wide and `height` high shows of `list`
/// when the chat `selected` is selected: the lines round the selected one,
/// half the height to either side, each one column narrower than the area.
/// The second answer is the place of the selected line in `list`.
pub fn display_rows(list: &Vec<Dialog>, width: u16, height: u16, selected: i64) -> (shown: (
    Vec<Row>,
    usize,
))
    requires
        width >= 1,
        counts_fit(
            list@,
            selected_index(list@, selected),
            (height / 2) as int,
            (width - 1) as nat,
        ),
    ensures
        shown.1 == selected_index(list@, selected),
        rows_view(shown.0@) == rows_of(
            list@,
            list@.len() as int,
            shown.1 as int,
            (height / 2) as int,
            (width - 1) as nat,
        ),
{
    let name_size: usize = (width - 1) as usize;
    let count: i128 = (height / 2) as i128;
    let index = find_selected(list, selected);
    let mut rows: Vec<Row> = Vec::new();
    let mut i: usize = 0;
    proof {
        assert(rows_view(rows@) =~= Seq::empty());
    }
    while i < list.len()
        invariant
            i <= list.len(),
            index == selected_index(list@, selected),
            name_size == width - 1,
            count == height / 2,
            counts_fit(list@, index as int, count as int, name_size as nat),
            rows_view(rows@) == rows_of(list@, i as int, index as int, count as int, name_size as nat),
        decreases list.len() - i,
    {
        if (i as i128) > (index as i128) - count && (i as i128) < (index as i128) + count {
            let ghost before = rows@;
            let row = display_row(&list[i], name_size, i == index);
            rows.push(row);
            proof {
                assert(rows_view(rows@) =~= rows_view(before).push((row.label@, row.selected)));
            }
        }
        i = i + 1;
    }
    (rows, index)
}

/// The place of the first dialog of chat `selected` in `list`; 0 where there
/// is none.
pub fn find_selected(list: &Vec<Dialog>, selected: i64) -> (index: usize)
    ensures
        index == selected_index(list@, selected),
        index == 0 || index < list.len(),
{
    let mut i: usize = 0;
    while i < list.len()
        invariant
            i <= list.len(),
            forall|j: int| 0 <= j < i ==> (#[trigger] list@[j]).chat_id != selected,
        decreases list.len() - i,
    {
        if list[i].chat_id == selected {
            proof {
                lemma_selected_index(list@, selected, i as int);
            }
            return i;
        }
        i = i + 1;
    }
    proof {
        lemma_selected_absent(list@, selected);
    }
    0
}

/// The first dialog of the chat is the selected one.
proof fn lemma_selected_index(list: Seq<Dialog>, selected: i64, at: int)
    requires
        is_first_of(list, selected, at),
    ensures
        selected_index(list, selected) == at,
{
    let chosen = choose|i: int| is_first_of(list, selected, i);
    if chosen < at {
        assert(list[chosen].chat_id != selected);
    } else if at < chosen {
        assert(list[at].chat_id != selected);
    }
}

/// Without a dialog of the chat the head of the list is selected.
proof fn lemma_selected_absent(list: Seq<Dialog>, selected: i64)
    requires
        forall|j: int| 0 <= j < list.len() ==> (#[trigger] list[j]).chat_id != selected,
    ensures
        selected_index(list, selected) == 0,
{
}

/// Ten to the power `k`.
pub open spec fn pow10(k: nat) -> nat
    decreases k,
{
    if k == 0 {
        1
    } else {
        10 * pow10((k - 1) as nat)
    }
}

/// A number below ten to the `k` has at most `k` digits.
pub proof fn lemma_decimal_len(n: nat, k: nat)
    requires
        k >= 1,
        n < pow10(k),
    ensures
        1 <= decimal(n).len() <= k,
    decreases k,
{
    if n >= 10 {
        assert(pow10(1) == 10) by {
            reveal_with_fuel(pow10, 2);
        }
        assert(k >= 2);
        assert(n / 10 < pow10((k - 1) as nat));
        lemma_decimal_len(n / 10, (k - 1) as nat);
    }
}

/// Lines at least thirteen wide fit every unread count.
pub proof fn theorem_wide_lines_fit(list: Seq<Dialog>, index: int, count: int, width: nat)
    requires
        width >= 13,
    ensures
        counts_fit(list, index, count, width),
{
    assert(pow10(10) == 10000000000) by {
        reveal_with_fuel(pow10, 11);
    }
    assert forall|i: int| 0 <= i < list.len() implies unread_digits((#[trigger] list[i]).unread).len()
        + 3 <= width by {
        if list[i].unread > 0 {
            lemma_decimal_len(list[i].unread as nat, 10);
        }
    }
}

/// A list in order stays in order when a dialog goes into its slot.
pub proof fn theorem_insert_keeps_order(
    header: Seq<i64>,
    all: Seq<Dialog>,
    d: Dialog,
    now: i64,
    k: int,
)
    requires
        in_order(header, all, now),
        is_slot(header, all, weight(header, d, now), now, k),
    ensures
        in_order(header, all.insert(k, d), now),
{
    let after = all.insert(k, d);
    let w = weight(header, d, now);
    assert forall|i: int, j: int| 0 <= i <= j < after.len() implies weight(
        header,
        #[trigger] after[i],
        now,
    ) <= weight(header, #[trigger] after[j], now) by {
        if i < k {
            assert(after[i] == all[i]);
        } else if i > k {
            assert(after[i] == all[i - 1]);
            assert(weight(header, all[k], now) <= weight(header, all[i - 1], now));
        }
        if j < k {
            assert(after[j] == all[j]);
        } else if j > k {
            assert(after[j] == all[j - 1]);
            assert(weight(header, all[k], now) <= weight(header, all[j - 1], now));
        }
    }
}

/// A weight has one slot in a list.
pub proof fn theorem_slot_is_unique(
    header: Seq<i64>,
    all: Seq<Dialog>,
    w: int,
    now: i64,
    k1: int,
    k2: int,
)
    requires
        is_slot(header, all, w, now, k1),
        is_slot(header, all, w, now, k2),
    ensures
        k1 == k2,
{
    if k1 < k2 {
        assert(weight(header, all[k1], now) < w);
    } else if k2 < k1 {
        assert(weight(header, all[k2], now) < w);
    }
}

} // verus!
