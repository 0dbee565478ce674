//! The crawl of a remote directory listing: which links are followed, which
//! are downloaded, and how many fetches may be outstanding at once.
//!
//! The scheduler holds no connection and awaits nothing. Its caller starts
//! the fetches it is told to start and reports each one that completes.

use vstd::prelude::*;
use crate::pattern::{
    compile,
    holds,
    is_match_under,
    matches_pattern,
    pattern_compiles,
    Pattern,
};
use crate::text::{bytes_of, last_char};

verus! {

/// The number of fetches that the crawl keeps outstanding at most.
pub const MAX_CHILD_TASKS: usize = 8;

/// A link that names a directory to descend into: digits, then a slash.
pub const FOLLOW_PATTERN: &'static str = r"\d+/";

/// A link that names a document to download.
pub const FILE_PATTERN: &'static str = r"^\d+.txt$";

/// The selector of the elements whose links a listing page offers.
pub const LINK_SELECTOR: &'static str = "a";

/// The attribute that holds a link's target.
pub const LINK_ATTRIBUTE: &'static str = "href";

/// The length, in bytes, of the longest page that is searched for links.
/// The parser keeps the page and the text it reads from it in buffers that
/// cannot grow beyond 2^31 bytes, and it may write three bytes for one byte
/// of the page; three times this length stays below that.
pub const LONGEST_PAGE: u32 = 536_870_912;

/// Whether the page `html` is short enough to be searched for links.
pub open spec fn fits_parser(html: Seq<char>) -> bool {
    bytes_of(html).len() <= LONGEST_PAGE
}

/// What a link on a listing page stands for.
#[derive(Clone, Copy, Debug, PartialEq, Eq, Structural)]
pub enum LinkKind {
    /// A directory of the listing: its page is fetched in turn.
    Directory,
    /// A document: it is downloaded unless it is already there.
    File,
    /// Anything else: it is passed over.
    Other,
}

/// What the caller is to do about one link.
#[derive(Debug)]
pub enum LinkAction {
    /// Start a fetch of this listing page now; it counts as outstanding.
    Fetch(String),
    /// Nothing now: the page waits on the backlog for a free slot.
    Queued,
    /// Download the document at this address and write it.
    Download(String),
    /// The document is already present locally: leave it.
    Skip,
    /// The link is of no interest, or its address cannot be resolved.
    Ignore,
}

/// An action, with its address as a sequence of characters.
pub enum Planned {
    Fetch(Seq<char>),
    Queued,
    Download(Seq<char>),
    Skip,
    Ignore,
}

impl View for LinkAction {
    type V = Planned;

    open spec fn view(&self) -> Planned {
        match self {
            LinkAction::Fetch(url) => Planned::Fetch(url@),
            LinkAction::Queued => Planned::Queued,
            LinkAction::Download(url) => Planned::Download(url@),
            LinkAction::Skip => Planned::Skip,
            LinkAction::Ignore => Planned::Ignore,
        }
    }
}

/// What `scraper` finds in the page `html`: for each element that `selector`
/// selects, the value of its attribute `attribute` if it has one. `None`
/// where `selector` is no valid selector.
pub uninterp spec fn selected_attributes(
    html: Seq<char>,
    selector: Seq<char>,
    attribute: Seq<char>,
) -> Option<Seq<Option<Seq<char>>>>;

/// The address that `reqwest::Url::join` resolves `reference` to against
/// `base`, written out; `None` where either does not parse.
pub uninterp spec fn resolved_url(base: Seq<char>, reference: Seq<char>) -> Option<Seq<char>>;

/// Calls `scraper::Html::parse_document`, `scraper::Selector::parse`,
/// `Html::select` and `Element::attr`. Trusted: the result lists, in the
/// order in which the crate yields the selected elements, the attribute's
/// value for each, as owned strings. The parser panics where one of its
/// buffers would grow beyond its limit, so a page of more than
/// `LONGEST_PAGE` bytes is left out.
#[verifier::external_body]
fn select_attributes(html: &str, selector: &str, attribute: &str) -> (found: Option<
    Vec<Option<String>>,
>)
    requires
        fits_parser(html@),
    ensures
        found matches Some(v) ==> selected_attributes(html@, selector@, attribute@) == Some(
            v.deep_view(),
        ),
        found is None ==> selected_attributes(html@, selector@, attribute@) is None,
{
    let selector = scraper::Selector::parse(selector).ok()?;
    let document = scraper::Html::parse_document(html);
    Some(
        document.select(&selector).map(
            |element| element.value().attr(attribute).map(|value| value.to_string()),
        ).collect(),
    )
}

/// Calls `reqwest::Url::parse` and `reqwest::Url::join`, and writes the
/// result out. Trusted: the result is the crate's resolved address.
#[verifier::external_body]
fn resolve_url(base: &str, reference: &str) -> (joined: Option<String>)
    ensures
        joined matches Some(s) ==> resolved_url(base@, reference@) == Some(s@),
        joined is None ==> resolved_url(base@, reference@) is None,
{
    let base = reqwest::Url::parse(base).ok()?;
    base.join(reference).ok().map(|url| url.to_string())
}

/// The values that are present in `found`, in order.
pub open spec fn present_values(found: Seq<Option<Seq<char>>>) -> Seq<Seq<char>>
    decreases found.len(),
{
    if found.len() == 0 {
        seq![]
    } else {
        match found.last() {
            Some(value) => present_values(found.drop_last()).push(value),
            None => present_values(found.drop_last()),
        }
    }
}

/// The link targets among what was found on a page: the values that are
/// present, in order; none where nothing could be selected.
pub open spec fn links_among(found: Option<Seq<Option<Seq<char>>>>) -> Seq<Seq<char>> {
    match found {
        Some(values) => present_values(values),
        None => seq![],
    }
}

/// The link targets of a listing page: the `href` of every anchor that has
/// one, in the order of the page.
pub open spec fn links_of(html: Seq<char>) -> Seq<Seq<char>> {
    links_among(selected_attributes(html, LINK_SELECTOR@, LINK_ATTRIBUTE@))
}

/// The link targets among the attribute values `found`.
pub fn collect_links(found: &Option<Vec<Option<String>>>) -> (links: Vec<String>)
    ensures
        links.deep_view() == links_among(found.deep_view()),
{
    let mut links: Vec<String> = Vec::new();
    match found {
        Some(values) => {
            let mut i: usize = 0;
            while i < values.len()
                invariant
                    i <= values.len(),
                    links.deep_view() == present_values(values.deep_view().take(i as int)),
                decreases values.len() - i,
            {
                proof {
                    let before = values.deep_view().take(i as int);
                    let after = values.deep_view().take(i + 1);
                    assert(after.drop_last() =~= before);
                    assert(after.last() == values@[i as int].deep_view());
                }
                let ghost earlier = links.deep_view();
                match &values[i] {
                    Some(value) => {
                        links.push(value.clone());
                        assert(links.deep_view() =~= earlier.push(value@));
                    },
                    None => {},
                }
                i = i + 1;
            }
            proof {
                assert(values.deep_view().take(values.len() as int) =~= values.deep_view());
            }
        },
        None => {
            assert(links.deep_view() =~= Seq::<Seq<char>>::empty());
        },
    }
    links
}

/// Whether the page `html` is short enough to be searched for links.
pub fn page_fits(html: &str) -> (fits: bool)
    ensures
        fits == fits_parser(html@),
{
    html.as_bytes().len() <= LONGEST_PAGE as usize
}

/// The link targets of the listing page `html`. A page of more than
/// `LONGEST_PAGE` bytes cannot be searched.
pub fn page_links(html: &str) -> (links: Vec<String>)
    requires
        fits_parser(html@),
    ensures
        links.deep_view() == links_of(html@),
{
    collect_links(&select_attributes(html, LINK_SELECTOR, LINK_ATTRIBUTE))
}

/// The kind of a link, given what the two patterns say of it. A link that
/// ends in a slash is a directory if the directory pattern matches it and
/// is passed over otherwise; any other link is a document if the document
/// pattern matches it.
pub open spec fn kind_from(href: Seq<char>, follow: Option<bool>, file: Option<bool>) -> LinkKind {
    if href.len() > 0 && href.last() == '/' {
        if follow == Some(true) {
            LinkKind::Directory
        } else {
            LinkKind::Other
        }
    } else if file == Some(true) {
        LinkKind::File
    } else {
        LinkKind::Other
    }
}

/// The kind of the link `href`.
pub open spec fn link_kind(href: Seq<char>) -> LinkKind {
    kind_from(
        href,
        is_match_under(FOLLOW_PATTERN@, href),
        is_match_under(FILE_PATTERN@, href),
    )
}

/// Whether `href` ends in a slash.
pub fn ends_in_slash(href: &str) -> (slash: bool)
    ensures
        slash == (href@.len() > 0 && href@.last() == '/'),
{
    match last_char(href) {
        Some(c) => c == '/',
        None => false,
    }
}

/// Sorts a link into directory, document or neither, given what the
/// directory pattern and the document pattern say of it.
pub fn kind_of(href: &str, follow: Option<bool>, file: Option<bool>) -> (kind: LinkKind)
    ensures
        kind == kind_from(href@, follow, file),
{
    if ends_in_slash(href) {
        match follow {
            Some(true) => LinkKind::Directory,
            _ => LinkKind::Other,
        }
    } else {
        match file {
            Some(true) => LinkKind::File,
            _ => LinkKind::Other,
        }
    }
}

/// Sorts links by their shape, with the two patterns compiled once.
pub struct LinkSorter {
    follow: Option<Pattern>,
    file: Option<Pattern>,
}

impl LinkSorter {
    #[verifier::type_invariant]
    spec fn compiled(self) -> bool {
        holds(self.follow, FOLLOW_PATTERN@) && holds(self.file, FILE_PATTERN@)
    }

    /// Whether the sorter holds its two patterns compiled, or nothing for
    /// one that does not compile.
    pub closed spec fn ready(&self) -> bool {
        holds(self.follow, FOLLOW_PATTERN@) && holds(self.file, FILE_PATTERN@)
    }

    /// A sorter with the directory pattern and the document pattern
    /// compiled.
    pub fn new() -> (sorter: Self)
        ensures
            sorter.ready(),
    {
        LinkSorter { follow: compile(FOLLOW_PATTERN), file: compile(FILE_PATTERN) }
    }

    /// Whether both patterns compiled. A sorter without them finds no
    /// directory and no document.
    pub fn is_compiled(&self) -> (compiled: bool)
        ensures
            compiled == (pattern_compiles(FOLLOW_PATTERN@) && pattern_compiles(FILE_PATTERN@)),
    {
        proof {
            use_type_invariant(self);
        }
        self.follow.is_some() && self.file.is_some()
    }

    /// Sorts the link `href` into directory, document or neither.
    pub fn classify(&self, href: &str) -> (kind: LinkKind)
        ensures
            kind == link_kind(href@),
    {
        proof {
            use_type_invariant(self);
        }
        if ends_in_slash(href) {
            let follow = match &self.follow {
                Some(pattern) => Some(matches_pattern(pattern, href)),
                None => None,
            };
            kind_of(href, follow, None)
        } else {
            let file = match &self.file {
                Some(pattern) => Some(matches_pattern(pattern, href)),
                None => None,
            };
            kind_of(href, None, file)
        }
    }
}

/// The state of a crawl, as numbers and addresses.
pub struct CrawlState {
    /// The cap on outstanding fetches.
    pub cap: nat,
    /// The number of fetches started and not yet known to be complete.
    pub outstanding: nat,
    /// The addresses that wait for a slot, the most recently found last.
    pub waiting: Seq<Seq<char>>,
    /// How many fetches have been started so far, the root's among them.
    pub started: nat,
    /// How many fetches have completed so far.
    pub completed: nat,
    /// How many directory links have been taken in so far.
    pub discovered: nat,
}

impl CrawlState {
    /// What holds of every crawl at all times: the cap is kept (a cap of
    /// zero still lets the root through), every started fetch is either
    /// outstanding or complete, and every directory link taken in has
    /// either been started or waits.
    pub open spec fn wf(self) -> bool {
        &&& self.outstanding <= self.cap || self.outstanding <= 1
        &&& self.started == self.completed + self.outstanding
        &&& self.started + self.waiting.len() == self.discovered + 1
    }

    /// Whether the crawl is over: nothing outstanding and nothing waiting.
    pub open spec fn finished(self) -> bool {
        self.outstanding == 0 && self.waiting.len() == 0
    }

    /// Whether a slot is free.
    pub open spec fn has_room(self) -> bool {
        self.outstanding < self.cap
    }

    /// A crawl at its beginning: the fetch of the root is outstanding and
    /// nothing waits.
    pub open spec fn begin(cap: nat) -> CrawlState {
        CrawlState {
            cap,
            outstanding: 1,
            waiting: Seq::empty(),
            started: 1,
            completed: 0,
            discovered: 0,
        }
    }

    /// The crawl after one outstanding fetch has completed.
    pub open spec fn complete(self) -> CrawlState {
        CrawlState {
            outstanding: (self.outstanding - 1) as nat,
            completed: self.completed + 1,
            ..self
        }
    }

    /// The crawl after the directory at `url` has been taken in: its fetch
    /// is started where a slot is free, and it waits otherwise.
    pub open spec fn offer(self, url: Seq<char>) -> CrawlState {
        if self.has_room() {
            CrawlState {
                outstanding: self.outstanding + 1,
                started: self.started + 1,
                discovered: self.discovered + 1,
                ..self
            }
        } else {
            CrawlState {
                waiting: self.waiting.push(url),
                discovered: self.discovered + 1,
                ..self
            }
        }
    }

    /// Whether an address is promoted now: a slot is free and one waits.
    pub open spec fn promotes(self) -> bool {
        self.has_room() && self.waiting.len() > 0
    }

    /// The crawl after the chance to promote: where an address is promoted,
    /// it is the one found most recently, and its fetch is started.
    pub open spec fn promote(self) -> CrawlState {
        if self.promotes() {
            CrawlState {
                outstanding: self.outstanding + 1,
                started: self.started + 1,
                waiting: self.waiting.drop_last(),
                ..self
            }
        } else {
            self
        }
    }

    /// What is done about a link of kind `kind`, given the address `target`
    /// that it resolves to, if any, and whether a document of its name is
    /// `present` locally.
    ///
    /// A directory that resolves is fetched at once where a slot is free
    /// and queued otherwise. A document that is present is skipped; one
    /// that is absent is downloaded. Whatever does not resolve, or is
    /// neither, is passed over.
    pub open spec fn plan(self, kind: LinkKind, target: Option<Seq<char>>, present: bool) -> Planned {
        match kind {
            LinkKind::Directory => match target {
                Some(url) => if self.has_room() {
                    Planned::Fetch(url)
                } else {
                    Planned::Queued
                },
                None => Planned::Ignore,
            },
            LinkKind::File => if present {
                Planned::Skip
            } else {
                match target {
                    Some(url) => Planned::Download(url),
                    None => Planned::Ignore,
                }
            },
            LinkKind::Other => Planned::Ignore,
        }
    }

    /// The crawl after a link of kind `kind` that resolves to `target` has
    /// been dealt with: only a directory that resolves changes it.
    pub open spec fn link(self, kind: LinkKind, target: Option<Seq<char>>) -> CrawlState {
        match (kind, target) {
            (LinkKind::Directory, Some(url)) => self.offer(url),
            _ => self,
        }
    }
}

/// The address that a link of kind `kind` is resolved to, where its address
/// is needed: that of a directory, and that of a document that is not
/// present.
pub open spec fn target_of(
    kind: LinkKind,
    base: Seq<char>,
    href: Seq<char>,
    present: bool,
) -> Option<Seq<char>> {
    match kind {
        LinkKind::Directory => resolved_url(base, href),
        LinkKind::File => if present {
            None
        } else {
            resolved_url(base, href)
        },
        LinkKind::Other => None,
    }
}

/// The bookkeeping of a crawl: how many fetches are outstanding, which
/// listing pages wait for a slot, and the counts that relate the two.
pub struct FetchScheduler {
    sorter: LinkSorter,
    limit: usize,
    in_flight: usize,
    backlog: Vec<String>,
    started: Ghost<nat>,
    completed: Ghost<nat>,
    discovered: Ghost<nat>,
}

impl View for FetchScheduler {
    type V = CrawlState;

    closed spec fn view(&self) -> CrawlState {
        CrawlState {
            cap: self.limit as nat,
            outstanding: self.in_flight as nat,
            waiting: self.backlog.deep_view(),
            started: self.started@,
            completed: self.completed@,
            discovered: self.discovered@,
        }
    }
}

impl FetchScheduler {
    /// A crawl at its beginning: the fetch of the root page is outstanding
    /// (the caller starts it) and nothing waits.
    pub fn new(limit: usize) -> (scheduler: Self)
        ensures
            scheduler@ == CrawlState::begin(limit as nat),
    {
        let scheduler = FetchScheduler {
            sorter: LinkSorter::new(),
            limit,
            in_flight: 1,
            backlog: Vec::new(),
            started: Ghost(1),
            completed: Ghost(0),
            discovered: Ghost(0),
        };
        assert(scheduler.backlog.deep_view() =~= Seq::<Seq<char>>::empty());
        scheduler
    }

    /// Whether the patterns that sort the links compiled. A scheduler
    /// without them follows no link.
    pub fn is_compiled(&self) -> (compiled: bool)
        ensures
            compiled == (pattern_compiles(FOLLOW_PATTERN@) && pattern_compiles(FILE_PATTERN@)),
    {
        self.sorter.is_compiled()
    }

    /// The cap on outstanding fetches.
    pub fn limit(&self) -> (limit: usize)
        ensures
            limit == self@.cap,
    {
        self.limit
    }

    /// The number of outstanding fetches.
    pub fn in_flight(&self) -> (count: usize)
        ensures
            count == self@.outstanding,
    {
        self.in_flight
    }

    /// The number of addresses on the backlog.
    pub fn backlog_len(&self) -> (count: usize)
        ensures
            count == self@.waiting.len(),
    {
        self.backlog.len()
    }

    /// Whether the crawl is over.
    pub fn is_finished(&self) -> (done: bool)
        ensures
            done == self@.finished(),
    {
        self.in_flight == 0 && self.backlog.len() == 0
    }

    /// Takes note that one outstanding fetch has completed.
    pub fn fetch_completed(&mut self)
        requires
            old(self)@.outstanding > 0,
        ensures
            final(self)@ == old(self)@.complete(),
    {
        self.in_flight = self.in_flight - 1;
        self.completed = Ghost(self.completed@ + 1);
    }

    /// Takes in the address of a newly found directory: it is admitted at
    /// once where a slot is free, and put on the backlog otherwise. Returns
    /// the address where the caller is to fetch it now.
    pub fn offer_directory(&mut self, url: String) -> (admitted: Option<String>)
        ensures
            final(self)@ == old(self)@.offer(url@),
            admitted == if old(self)@.has_room() {
                Some(url)
            } else {
                None
            },
    {
        self.discovered = Ghost(self.discovered@ + 1);
        if self.in_flight < self.limit {
            self.in_flight = self.in_flight + 1;
            self.started = Ghost(self.started@ + 1);
            Some(url)
        } else {
            let ghost earlier = self.backlog.deep_view();
            self.backlog.push(url);
            assert(self.backlog.deep_view() =~= earlier.push(url@));
            None
        }
    }

    /// Promotes one waiting address where a slot is free: the one found
    /// most recently. Returns it for the caller to fetch.
    pub fn promote(&mut self) -> (next: Option<String>)
        ensures
            final(self)@ == old(self)@.promote(),
            next.deep_view() == if old(self)@.promotes() {
                Some(old(self)@.waiting.last())
            } else {
                None
            },
    {
        if self.in_flight < self.limit && self.backlog.len() > 0 {
            let ghost earlier = self.backlog.deep_view();
            let next = self.backlog.pop();
            assert(self.backlog.deep_view() =~= earlier.drop_last());
            self.in_flight = self.in_flight + 1;
            self.started = Ghost(self.started@ + 1);
            next
        } else {
            None
        }
    }

    /// Deals with a link of kind `kind`, given the address `target` that it
    /// resolves to, if any, and whether a document of its name is `present`
    /// locally. Returns what the caller is to do.
    pub fn decide(&mut self, kind: LinkKind, target: Option<String>, present: bool) -> (action:
        LinkAction)
        ensures
            action@ == old(self)@.plan(kind, target.deep_view(), present),
            final(self)@ == old(self)@.link(kind, target.deep_view()),
    {
        match kind {
            LinkKind::Directory => match target {
                Some(url) => match self.offer_directory(url) {
                    Some(url) => LinkAction::Fetch(url),
                    None => LinkAction::Queued,
                },
                None => LinkAction::Ignore,
            },
            LinkKind::File => if present {
                LinkAction::Skip
            } else {
                match target {
                    Some(url) => LinkAction::Download(url),
                    None => LinkAction::Ignore,
                }
            },
            LinkKind::Other => LinkAction::Ignore,
        }
    }

    /// Deals with the link `href` found on the page at `base`. `present`
    /// says whether a document of that name is already stored locally.
    ///
    /// The link is sorted by its shape, resolved against `base` where its
    /// address is needed, and dealt with as `decide` says.
    pub fn on_link(&mut self, base: &str, href: &str, present: bool) -> (action: LinkAction)
        ensures
            action@ == old(self)@.plan(
                link_kind(href@),
                target_of(link_kind(href@), base@, href@, present),
                present,
            ),
            final(self)@ == old(self)@.link(
                link_kind(href@),
                target_of(link_kind(href@), base@, href@, present),
            ),
    {
        let kind = self.sorter.classify(href);
        let target = match kind {
            LinkKind::Directory => resolve_url(base, href),
            LinkKind::File => if present {
                None
            } else {
                resolve_url(base, href)
            },
            LinkKind::Other => None,
        };
        self.decide(kind, target, present)
    }
}

/// One thing that happens in a crawl.
pub enum CrawlEvent {
    /// An outstanding fetch completes.
    Completed,
    /// A link of some kind, resolved to some address or to none, is dealt
    /// with.
    Link(LinkKind, Option<Seq<char>>),
    /// The scheduler is given the chance to promote a waiting address.
    Promoted,
}

/// The crawl after `event`.
pub open spec fn after_event(state: CrawlState, event: CrawlEvent) -> CrawlState {
    match event {
        CrawlEvent::Completed => state.complete(),
        CrawlEvent::Link(kind, target) => state.link(kind, target),
        CrawlEvent::Promoted => state.promote(),
    }
}

/// The crawl after `events`, one after the other.
pub open spec fn after_events(state: CrawlState, events: Seq<CrawlEvent>) -> CrawlState
    decreases events.len(),
{
    if events.len() == 0 {
        state
    } else {
        after_event(after_events(state, events.drop_last()), events.last())
    }
}

/// Whether `events` can happen one after the other from `state`: a fetch
/// completes only while one is outstanding.
pub open spec fn possible(state: CrawlState, events: Seq<CrawlEvent>) -> bool
    decreases events.len(),
{
    events.len() == 0 || (possible(state, events.drop_last()) && (events.last() is Completed
        ==> after_events(state, events.drop_last()).outstanding > 0))
}

/// How many of `events` are fetches that complete.
pub open spec fn completions(events: Seq<CrawlEvent>) -> nat
    decreases events.len(),
{
    if events.len() == 0 {
        0
    } else {
        completions(events.drop_last()) + if events.last() is Completed {
            1nat
        } else {
            0nat
        }
    }
}

/// How many of `events` are directory links that resolve.
pub open spec fn directory_links(events: Seq<CrawlEvent>) -> nat
    decreases events.len(),
{
    if events.len() == 0 {
        0
    } else {
        directory_links(events.drop_last()) + if events.last() matches CrawlEvent::Link(
            LinkKind::Directory,
            Some(_),
        ) {
            1nat
        } else {
            0nat
        }
    }
}

/// Every event keeps what holds of every crawl.
pub proof fn lemma_event_keeps_wf(state: CrawlState, event: CrawlEvent)
    requires
        state.wf(),
        event is Completed ==> state.outstanding > 0,
    ensures
        after_event(state, event).wf(),
        after_event(state, event).cap == state.cap,
{
}

/// With a cap of at least one, no more fetches than the cap are ever
/// outstanding.
pub proof fn lemma_cap_is_kept(state: CrawlState)
    requires
        state.wf(),
        state.cap >= 1,
    ensures
        state.outstanding <= state.cap,
{
}

/// With a cap of at least one, a crawl that has nothing outstanding after
/// the chance to promote is over: nothing waits either.
pub proof fn lemma_idle_after_promotion_is_finished(state: CrawlState)
    requires
        state.cap >= 1,
        state.promote().outstanding == 0,
    ensures
        state.promote().finished(),
{
}

/// When a crawl is over, the fetches that completed are the root's and one
/// for each directory link that was taken in.
pub proof fn lemma_finished_crawl_fetched_all(state: CrawlState)
    requires
        state.wf(),
        state.finished(),
    ensures
        state.completed == state.discovered + 1,
{
}

/// Whatever happens in a crawl with a cap of at least one, from its
/// beginning on: the fetches outstanding never exceed the cap, and once the
/// crawl is over, the fetches that have completed are one for the root and
/// one for each directory link that was found.
pub proof fn lemma_crawl_keeps_cap_and_fetches_all(cap: nat, events: Seq<CrawlEvent>)
    requires
        cap >= 1,
        possible(CrawlState::begin(cap), events),
    ensures
        after_events(CrawlState::begin(cap), events).wf(),
        after_events(CrawlState::begin(cap), events).cap == cap,
        after_events(CrawlState::begin(cap), events).outstanding <= cap,
        after_events(CrawlState::begin(cap), events).completed == completions(events),
        after_events(CrawlState::begin(cap), events).discovered == directory_links(events),
        after_events(CrawlState::begin(cap), events).finished() ==> completions(events)
            == directory_links(events) + 1,
    decreases events.len(),
{
    if events.len() > 0 {
        lemma_crawl_keeps_cap_and_fetches_all(cap, events.drop_last());
        lemma_event_keeps_wf(
            after_events(CrawlState::begin(cap), events.drop_last()),
            events.last(),
        );
    }
}

} // verus!
