//! A composite report over several rooms and homes.
use vstd::prelude::*;

use crate::error::SmartHomeError;
use crate::home::{home_ready, home_report_text, SmartHome};
use crate::report::{Probe, RemoteAnswer, Report};
use crate::room::{room_ready, room_report_text, Room};

verus! {

/// What a `ReportComposer` can hold.
pub enum ReportItem {
    Room(Room),
    Home(SmartHome),
}

impl From<Room> for ReportItem {
    fn from(r: Room) -> (item: Self) {
        ReportItem::Room(r)
    }
}

impl vstd::std_specs::convert::FromSpecImpl<Room> for ReportItem {
    open spec fn obeys_from_spec() -> bool {
        true
    }

    open spec fn from_spec(v: Room) -> ReportItem {
        ReportItem::Room(v)
    }
}

impl From<SmartHome> for ReportItem {
    fn from(h: SmartHome) -> (item: Self) {
        ReportItem::Home(h)
    }
}

impl vstd::std_specs::convert::FromSpecImpl<SmartHome> for ReportItem {
    open spec fn obeys_from_spec() -> bool {
        true
    }

    open spec fn from_spec(v: SmartHome) -> ReportItem {
        ReportItem::Home(v)
    }
}

/// What can be added to a `ReportComposer`.
pub trait IntoReportItem: Sized {
    spec fn item_spec(self) -> ReportItem;

    fn into_report_item(self) -> (r: ReportItem)
        ensures
            r == self.item_spec(),
    ;
}

impl IntoReportItem for ReportItem {
    open spec fn item_spec(self) -> ReportItem {
        self
    }

    fn into_report_item(self) -> (r: ReportItem) {
        self
    }
}

impl IntoReportItem for Room {
    open spec fn item_spec(self) -> ReportItem {
        ReportItem::Room(self)
    }

    fn into_report_item(self) -> (r: ReportItem) {
        ReportItem::Room(self)
    }
}

impl IntoReportItem for SmartHome {
    open spec fn item_spec(self) -> ReportItem {
        ReportItem::Home(self)
    }

    fn into_report_item(self) -> (r: ReportItem) {
        ReportItem::Home(self)
    }
}

/// Whether `answers` holds what an item's report needs.
pub open spec fn item_ready(item: ReportItem, answers: Map<Seq<char>, RemoteAnswer>) -> bool {
    match item {
        ReportItem::Room(r) => room_ready(r, answers),
        ReportItem::Home(h) => home_ready(h, answers),
    }
}

/// The report of an item.
pub open spec fn item_text(item: ReportItem, answers: Map<Seq<char>, RemoteAnswer>) -> Seq<char> {
    match item {
        ReportItem::Room(r) => room_report_text(r, answers),
        ReportItem::Home(h) => home_report_text(h, answers),
    }
}

impl ReportItem {
    fn generate(&self, probe: &Probe) -> (r: Result<String, SmartHomeError>)
        requires
            probe.wf(),
            item_ready(*self, probe.answers()),
        ensures
            r matches Ok(s) && s@ == item_text(*self, probe.answers()),
    {
        match self {
            ReportItem::Room(r) => r.report(probe),
            ReportItem::Home(h) => h.report(probe),
        }
    }
}

/// The output of a composer: a blank line, the title, then each item's
/// report, each on lines of its own.
pub open spec fn composed_text(title: Seq<char>, items: Seq<ReportItem>, answers: Map<Seq<char>, RemoteAnswer>) -> Seq<char>
    decreases items.len(),
{
    if items.len() == 0 {
        "\n"@ + title + "\n"@
    } else {
        composed_text(title, items.drop_last(), answers) + item_text(items.last(), answers) + "\n"@
    }
}

/// Gathers rooms and homes into one report.
pub struct ReportComposer {
    title: String,
    items: Vec<ReportItem>,
}

impl ReportComposer {
    pub closed spec fn spec_title(&self) -> Seq<char> {
        self.title@
    }

    /// The items, in the order they were added.
    pub closed spec fn items(&self) -> Seq<ReportItem> {
        self.items@
    }

    /// A composer with no items.
    pub fn new(title: &str) -> (r: Self)
        ensures
            r.spec_title() == title@,
            r.items() == Seq::<ReportItem>::empty(),
    {
        ReportComposer { title: title.to_owned(), items: Vec::new() }
    }

    /// Adds an item at the end.
    pub fn add<T: IntoReportItem>(&mut self, item: T)
        ensures
            final(self).spec_title() == old(self).spec_title(),
            final(self).items() == old(self).items().push(item.item_spec()),
    {
        self.items.push(item.into_report_item());
    }

    /// The composed report, as it is printed.
    pub fn render(&self, probe: &Probe) -> (r: String)
        requires
            probe.wf(),
            forall|i: int| 0 <= i < self.items().len() ==> item_ready(#[trigger] self.items()[i], probe.answers()),
        ensures
            r@ == composed_text(self.spec_title(), self.items(), probe.answers()),
    {
        let mut out = String::new();
        out.append("\n");
        out.append(self.title.as_str());
        out.append("\n");
        let n = self.items.len();
        let mut i: usize = 0;
        assert(self.items@.take(0) =~= Seq::<ReportItem>::empty());
        assert(out@ =~= composed_text(self.title@, self.items@.take(0), probe.answers()));
        while i < n
            invariant
                probe.wf(),
                n == self.items@.len(),
                i <= n,
                forall|j: int| 0 <= j < self.items().len() ==> item_ready(#[trigger] self.items()[j], probe.answers()),
                out@ == composed_text(self.title@, self.items@.take(i as int), probe.answers()),
            decreases n - i,
        {
            let item = &self.items[i];
            assert(item_ready(self.items()[i as int], probe.answers()));
            match item.generate(probe) {
                Ok(text) => {
                    out.append(text.as_str());
                },
                Err(_) => {},
            }
            out.append("\n");
            assert(self.items@.take(i + 1).drop_last() =~= self.items@.take(i as int));
            i = i + 1;
        }
        assert(self.items@.take(n as int) =~= self.items@);
        out
    }
}

} // verus!
