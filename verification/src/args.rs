//! The settings of the watcher, the stabiliser and the webhook, with their
//! defaults and the one-line descriptions that are logged at start-up.

use vstd::prelude::*;
use crate::duration::{duration_text, humantime_text, HumanDuration};
use crate::header::{visible_bytes, Header, HeaderView};
use crate::json::{JsonTemplate, DEFAULT_TEMPLATE};
use crate::text::{
    ascii_chars, ascii_text, debug_string, debug_text, decimal, decimal_string, lemma_cancel,
    lemma_decimal_then_space,
};

verus! {

/// Seconds between two polls of the watched directory, unless given.
pub const DEFAULT_INTERVAL_SECS: u64 = 2;

/// Seconds of quiet before a change is reported, unless given.
pub const DEFAULT_DEBOUNCE_SECS: u64 = 5;

/// Seconds between two stability checks of a file, unless given.
pub const DEFAULT_COOLDOWN_SECS: u64 = 10;

/// Consecutive stable checks after which a file counts as created, unless given.
pub const DEFAULT_STABLE_LIMIT: usize = 3;

/// Consecutive failed checks after which a file is given up, unless given.
pub const DEFAULT_ERROR_LIMIT: usize = 5;

/// Retries of a failed webhook request, unless given.
pub const DEFAULT_RETRIES: usize = 3;

/// Calls the `Debug` of `camino::Utf8Path` on `path`. Claimed of it, after the
/// source: camino writes a path's `Debug` as the `Debug` of its `str`, so the
/// text is what `debug_text` names for the path's text.
#[verifier::external_body]
fn path_debug_string(path: &str) -> (res: String)
    ensures
        res@ == debug_text(path@),
{
    format!("{:?}", camino::Utf8Path::new(path))
}

/// A count that is never zero.
#[derive(Clone, Copy, Debug)]
pub struct NonZeroCount {
    value: usize,
}

impl View for NonZeroCount {
    type V = usize;

    closed spec fn view(&self) -> usize {
        self.value
    }
}

impl NonZeroCount {
    #[verifier::type_invariant]
    spec fn well_formed(self) -> bool {
        self.value > 0
    }

    /// The count `n`, unless it is zero.
    pub fn new(n: usize) -> (res: Option<NonZeroCount>)
        ensures
            res is Some <==> n > 0,
            res matches Some(c) ==> c@ == n,
    {
        if n > 0 {
            Some(NonZeroCount { value: n })
        } else {
            None
        }
    }

    /// The count.
    pub fn get(&self) -> (res: usize)
        ensures
            res == self@,
            res > 0,
    {
        proof {
            use_type_invariant(self);
        }
        self.value
    }
}

/// What to watch and how often.
#[derive(Debug)]
pub struct WatcherArgs {
    /// Path to watch for changes.
    pub path: String,
    /// Optional glob pattern, relative to the watched path, that created files must match.
    pub pattern: Option<String>,
    /// Polling interval.
    pub interval: HumanDuration,
    /// Debounce duration.
    pub debounce: HumanDuration,
}

/// When a file counts as settled.
#[derive(Debug)]
pub struct StabilizerArgs {
    /// Time between two stability checks of a file.
    pub cooldown: HumanDuration,
    /// Consecutive stable checks after which the file counts as created.
    pub stable_count: NonZeroCount,
    /// Consecutive failed checks after which the file is given up.
    pub error_count: NonZeroCount,
}

/// Where and how to report a created file.
#[derive(Debug)]
pub struct WebhookArgs {
    /// Optional URL to post a message to when a file is created.
    pub webhook_url: Option<String>,
    /// Template of the posted JSON payload.
    pub webhook_template: JsonTemplate,
    /// Retries when sending fails.
    pub webhook_retries: usize,
    /// Headers to send with each request.
    pub webhook_headers: Vec<Header>,
}

/// All settings.
#[derive(Debug)]
pub struct Args {
    pub watcher: WatcherArgs,
    pub stabilizer: StabilizerArgs,
    pub webhook: WebhookArgs,
}

/// The description of the watcher settings.
pub open spec fn watcher_text(w: WatcherArgs) -> Seq<char> {
    "path="@ + debug_text(w.path@) + " interval="@ + duration_text(w.interval) + " debounce="@
        + duration_text(w.debounce) + match w.pattern {
        Some(p) => " pattern="@ + debug_text(p@),
        None => Seq::<char>::empty(),
    }
}

/// The description of the stabiliser settings.
pub open spec fn stabilizer_text(s: StabilizerArgs) -> Seq<char> {
    "cooldown="@ + duration_text(s.cooldown) + " stable_count="@ + decimal(s.stable_count@ as nat)
        + " error_count="@ + decimal(s.error_count@ as nat)
}

/// How a header is shown: its name, then its value quoted, or `"<binary>"`
/// where the value is not all visible ASCII.
pub open spec fn header_entry(h: HeaderView) -> Seq<char> {
    h.name + ": "@ + debug_text(
        if visible_bytes(h.value) {
            ascii_chars(h.value)
        } else {
            "<binary>"@
        },
    )
}

/// The headers shown one after the other, separated by `, `.
pub open spec fn header_entries(hs: Seq<HeaderView>) -> Seq<char>
    decreases hs.len(),
{
    if hs.len() == 0 {
        Seq::<char>::empty()
    } else if hs.len() == 1 {
        header_entry(hs[0])
    } else {
        header_entries(hs.drop_last()) + ", "@ + header_entry(hs.last())
    }
}

/// The headers of a list, taken by their views.
pub open spec fn header_views(hs: Seq<Header>) -> Seq<HeaderView> {
    hs.map_values(|h: Header| h@)
}

/// The description of the webhook settings: `None` without a URL.
pub open spec fn webhook_text(w: WebhookArgs) -> Seq<char> {
    match w.webhook_url {
        Some(url) => "url="@ + debug_text(url@) + " retries="@ + decimal(w.webhook_retries as nat)
            + " template="@ + w.webhook_template@ + if w.webhook_headers@.len() > 0 {
            " headers=["@ + header_entries(header_views(w.webhook_headers@)) + "]"@
        } else {
            Seq::<char>::empty()
        },
        None => "None"@,
    }
}

/// The webhook settings are described as `None` exactly when no URL is set.
pub proof fn law_webhook_text_none(w: WebhookArgs)
    ensures
        (webhook_text(w) == "None"@) <==> w.webhook_url is None,
{
    reveal_strlit("None");
    if let Some(url) = w.webhook_url {
        reveal_strlit("url=");
        let t = webhook_text(w);
        assert(t[0] == 'u');
        assert("None"@[0] == 'N');
    }
}

/// The cooldown is written in full, seconds and the nanoseconds beyond them:
/// two stabiliser settings with the same counts are described alike exactly
/// when humantime writes their cooldowns alike.
pub proof fn law_stabilizer_cooldown_text(s1: StabilizerArgs, s2: StabilizerArgs)
    requires
        s1.stable_count@ == s2.stable_count@,
        s1.error_count@ == s2.error_count@,
    ensures
        (stabilizer_text(s1) == stabilizer_text(s2)) <==> (humantime_text(s1.cooldown@.0, s1.cooldown@.1)
            == humantime_text(s2.cooldown@.0, s2.cooldown@.1)),
{
    let rest = " stable_count="@ + decimal(s1.stable_count@ as nat) + " error_count="@ + decimal(
        s1.error_count@ as nat,
    );
    let h1 = humantime_text(s1.cooldown@.0, s1.cooldown@.1);
    let h2 = humantime_text(s2.cooldown@.0, s2.cooldown@.1);
    assert(stabilizer_text(s1) =~= "cooldown="@ + h1 + rest);
    assert(stabilizer_text(s2) =~= "cooldown="@ + h2 + rest);
    lemma_cancel("cooldown="@, h1, h2, rest);
}

/// The counts are written so that they can be read back: two stabiliser
/// settings with the same cooldown are described alike exactly when both
/// their counts are equal.
pub proof fn law_stabilizer_counts_text(s1: StabilizerArgs, s2: StabilizerArgs)
    requires
        s1.cooldown@ == s2.cooldown@,
    ensures
        (stabilizer_text(s1) == stabilizer_text(s2)) <==> (s1.stable_count@ == s2.stable_count@
            && s1.error_count@ == s2.error_count@),
{
    if stabilizer_text(s1) == stabilizer_text(s2) {
        reveal_strlit(" error_count=");
        let a = "cooldown="@ + duration_text(s1.cooldown) + " stable_count="@;
        let r1 = " error_count="@ + decimal(s1.error_count@ as nat);
        let r2 = " error_count="@ + decimal(s2.error_count@ as nat);
        assert(stabilizer_text(s1) =~= a + decimal(s1.stable_count@ as nat) + r1);
        assert(stabilizer_text(s2) =~= a + decimal(s2.stable_count@ as nat) + r2);
        lemma_decimal_then_space(a, s1.stable_count@ as nat, r1, s2.stable_count@ as nat, r2);
        lemma_cancel(Seq::<char>::empty(), " error_count="@, " error_count="@, Seq::<char>::empty());
        assert(decimal(s1.error_count@ as nat) =~= r1.skip(" error_count="@.len() as int));
        assert(decimal(s2.error_count@ as nat) =~= r2.skip(" error_count="@.len() as int));
        crate::text::law_decimal_injective(s1.error_count@ as nat, s2.error_count@ as nat);
    }
}

/// The debounce is written in full: two watcher settings that differ at most
/// in their debounce are described alike exactly when humantime writes their
/// debounces alike.
pub proof fn law_watcher_debounce_text(w1: WatcherArgs, w2: WatcherArgs)
    requires
        w1.path@ == w2.path@,
        w1.pattern == w2.pattern,
        w1.interval@ == w2.interval@,
    ensures
        (watcher_text(w1) == watcher_text(w2)) <==> (humantime_text(w1.debounce@.0, w1.debounce@.1)
            == humantime_text(w2.debounce@.0, w2.debounce@.1)),
{
    let a = "path="@ + debug_text(w1.path@) + " interval="@ + humantime_text(w1.interval@.0, w1.interval@.1)
        + " debounce="@;
    let tail = match w1.pattern {
        Some(p) => " pattern="@ + debug_text(p@),
        None => Seq::<char>::empty(),
    };
    let h1 = humantime_text(w1.debounce@.0, w1.debounce@.1);
    let h2 = humantime_text(w2.debounce@.0, w2.debounce@.1);
    assert(watcher_text(w1) =~= a + h1 + tail);
    assert(watcher_text(w2) =~= a + h2 + tail);
    lemma_cancel(a, h1, h2, tail);
}

/// The interval is written in full: two watcher settings that differ at most
/// in their interval are described alike exactly when humantime writes their
/// intervals alike.
pub proof fn law_watcher_interval_text(w1: WatcherArgs, w2: WatcherArgs)
    requires
        w1.path@ == w2.path@,
        w1.pattern == w2.pattern,
        w1.debounce@ == w2.debounce@,
    ensures
        (watcher_text(w1) == watcher_text(w2)) <==> (humantime_text(w1.interval@.0, w1.interval@.1)
            == humantime_text(w2.interval@.0, w2.interval@.1)),
{
    let a = "path="@ + debug_text(w1.path@) + " interval="@;
    let tail = " debounce="@ + humantime_text(w1.debounce@.0, w1.debounce@.1) + match w1.pattern {
        Some(p) => " pattern="@ + debug_text(p@),
        None => Seq::<char>::empty(),
    };
    let h1 = humantime_text(w1.interval@.0, w1.interval@.1);
    let h2 = humantime_text(w2.interval@.0, w2.interval@.1);
    assert(watcher_text(w1) =~= a + h1 + tail);
    assert(watcher_text(w2) =~= a + h2 + tail);
    lemma_cancel(a, h1, h2, tail);
}

/// The path is written quoted, in full: two watcher settings that differ at
/// most in their path are described alike exactly when the paths are quoted alike.
pub proof fn law_watcher_path_text(w1: WatcherArgs, w2: WatcherArgs)
    requires
        w1.pattern == w2.pattern,
        w1.interval@ == w2.interval@,
        w1.debounce@ == w2.debounce@,
    ensures
        (watcher_text(w1) == watcher_text(w2)) <==> (debug_text(w1.path@) == debug_text(w2.path@)),
{
    let tail = " interval="@ + humantime_text(w1.interval@.0, w1.interval@.1) + " debounce="@
        + humantime_text(w1.debounce@.0, w1.debounce@.1) + match w1.pattern {
        Some(p) => " pattern="@ + debug_text(p@),
        None => Seq::<char>::empty(),
    };
    assert(watcher_text(w1) =~= "path="@ + debug_text(w1.path@) + tail);
    assert(watcher_text(w2) =~= "path="@ + debug_text(w2.path@) + tail);
    lemma_cancel("path="@, debug_text(w1.path@), debug_text(w2.path@), tail);
}

/// A pattern is written after everything else: the description of watcher
/// settings with a pattern is the description without it, followed by
/// ` pattern=` and the quoted pattern.
pub proof fn law_watcher_pattern_text(w1: WatcherArgs, w2: WatcherArgs)
    requires
        w1.path@ == w2.path@,
        w1.interval@ == w2.interval@,
        w1.debounce@ == w2.debounce@,
        w1.pattern is None,
        w2.pattern is Some,
    ensures
        watcher_text(w2) == watcher_text(w1) + " pattern="@ + debug_text(w2.pattern->Some_0@),
{
    assert(watcher_text(w2) =~= watcher_text(w1) + " pattern="@ + debug_text(w2.pattern->Some_0@));
}

/// Joining header entries: the entries of two non-empty lists one after the
/// other are the entries of each list, with `, ` between them.
pub proof fn law_header_entries_concat(a: Seq<HeaderView>, b: Seq<HeaderView>)
    requires
        a.len() > 0,
        b.len() > 0,
    ensures
        header_entries(a + b) == header_entries(a) + ", "@ + header_entries(b),
    decreases b.len(),
{
    let ab = a + b;
    assert(ab.drop_last() =~= a + b.drop_last());
    assert(ab.last() == b.last());
    if b.len() == 1 {
        assert(b.drop_last() =~= Seq::<HeaderView>::empty());
        assert(a + b.drop_last() =~= a);
        assert(header_entries(b) == header_entry(b[0]));
    } else {
        law_header_entries_concat(a, b.drop_last());
        assert(header_entries(ab) =~= header_entries(a) + ", "@ + header_entries(b.drop_last()) + ", "@
            + header_entry(b.last()));
    }
}

/// A single header is shown as its entry alone, and no headers as nothing.
pub proof fn law_header_entries_small(h: HeaderView)
    ensures
        header_entries(seq![h]) == header_entry(h),
        header_entries(Seq::<HeaderView>::empty()) == Seq::<char>::empty(),
{
}

/// Header values that are not all visible ASCII are all shown alike, as
/// `"<binary>"`; visible ones are shown as their own text, quoted.
pub proof fn law_header_entry_value(h1: HeaderView, h2: HeaderView)
    requires
        h1.name == h2.name,
    ensures
        !visible_bytes(h1.value) && !visible_bytes(h2.value) ==> header_entry(h1) == header_entry(h2),
        visible_bytes(h1.value) && visible_bytes(h2.value) ==> ((header_entry(h1) == header_entry(h2))
            <==> (debug_text(ascii_chars(h1.value)) == debug_text(ascii_chars(h2.value)))),
{
    if visible_bytes(h1.value) && visible_bytes(h2.value) {
        lemma_cancel(
            h1.name + ": "@,
            debug_text(ascii_chars(h1.value)),
            debug_text(ascii_chars(h2.value)),
            Seq::<char>::empty(),
        );
        assert(header_entry(h1) =~= h1.name + ": "@ + debug_text(ascii_chars(h1.value)) + Seq::<char>::empty());
        assert(header_entry(h2) =~= h1.name + ": "@ + debug_text(ascii_chars(h2.value)) + Seq::<char>::empty());
    }
}

/// The retries are written so that they can be read back: two webhook
/// settings with a URL, which differ at most in their retries, are described
/// alike exactly when the retries are equal.
pub proof fn law_webhook_retries_text(w1: WebhookArgs, w2: WebhookArgs)
    requires
        w1.webhook_url is Some,
        w1.webhook_url == w2.webhook_url,
        w1.webhook_template@ == w2.webhook_template@,
        header_views(w1.webhook_headers@) == header_views(w2.webhook_headers@),
    ensures
        (webhook_text(w1) == webhook_text(w2)) <==> (w1.webhook_retries == w2.webhook_retries),
{
    if webhook_text(w1) == webhook_text(w2) {
        reveal_strlit(" template=");
        let url = w1.webhook_url->Some_0;
        let a = "url="@ + debug_text(url@) + " retries="@;
        let hs = if w1.webhook_headers@.len() > 0 {
            " headers=["@ + header_entries(header_views(w1.webhook_headers@)) + "]"@
        } else {
            Seq::<char>::empty()
        };
        assert(w1.webhook_headers@.len() == header_views(w1.webhook_headers@).len());
        assert(w2.webhook_headers@.len() == header_views(w2.webhook_headers@).len());
        let r = " template="@ + w1.webhook_template@ + hs;
        assert(webhook_text(w1) =~= a + decimal(w1.webhook_retries as nat) + r);
        assert(webhook_text(w2) =~= a + decimal(w2.webhook_retries as nat) + r);
        lemma_decimal_then_space(a, w1.webhook_retries as nat, r, w2.webhook_retries as nat, r);
    }
}

/// The template is written as its text, unchanged: two webhook settings with
/// a URL, which differ at most in their template, are described alike exactly
/// when the templates' texts are equal.
pub proof fn law_webhook_template_text(w1: WebhookArgs, w2: WebhookArgs)
    requires
        w1.webhook_url is Some,
        w1.webhook_url == w2.webhook_url,
        w1.webhook_retries == w2.webhook_retries,
        header_views(w1.webhook_headers@) == header_views(w2.webhook_headers@),
    ensures
        (webhook_text(w1) == webhook_text(w2)) <==> (w1.webhook_template@ == w2.webhook_template@),
{
    let url = w1.webhook_url->Some_0;
    let a = "url="@ + debug_text(url@) + " retries="@ + decimal(w1.webhook_retries as nat) + " template="@;
    assert(w1.webhook_headers@.len() == header_views(w1.webhook_headers@).len());
    assert(w2.webhook_headers@.len() == header_views(w2.webhook_headers@).len());
    let hs = if w1.webhook_headers@.len() > 0 {
        " headers=["@ + header_entries(header_views(w1.webhook_headers@)) + "]"@
    } else {
        Seq::<char>::empty()
    };
    assert(webhook_text(w1) =~= a + w1.webhook_template@ + hs);
    assert(webhook_text(w2) =~= a + w2.webhook_template@ + hs);
    lemma_cancel(a, w1.webhook_template@, w2.webhook_template@, hs);
}

/// Headers are written after everything else: the description of webhook
/// settings with headers is the description without them, followed by
/// ` headers=[`, the entries and `]`.
pub proof fn law_webhook_headers_text(w1: WebhookArgs, w2: WebhookArgs)
    requires
        w1.webhook_url is Some,
        w1.webhook_url == w2.webhook_url,
        w1.webhook_retries == w2.webhook_retries,
        w1.webhook_template@ == w2.webhook_template@,
        w1.webhook_headers@.len() == 0,
        w2.webhook_headers@.len() > 0,
    ensures
        webhook_text(w2) == webhook_text(w1) + " headers=["@ + header_entries(header_views(w2.webhook_headers@))
            + "]"@,
{
    assert(webhook_text(w2) =~= webhook_text(w1) + " headers=["@ + header_entries(
        header_views(w2.webhook_headers@),
    ) + "]"@);
}

/// The description of all settings always ends with the webhook part in
/// braces, whatever the webhook settings are; without a URL it ends with
/// `webhook={None}`.
pub proof fn law_args_text_webhook_part(a: Args)
    ensures
        ({
            let t = args_text(a);
            let w = "} webhook={"@ + webhook_text(a.webhook) + "}"@;
            &&& t.len() >= w.len()
            &&& t.skip(t.len() - w.len()) == w
        }),
        a.webhook.webhook_url is None ==> ({
            let t = args_text(a);
            &&& t.len() >= "} webhook={None}"@.len()
            &&& t.skip(t.len() - "} webhook={None}"@.len()) == "} webhook={None}"@
        }),
{
    let p = "watcher={"@ + watcher_text(a.watcher) + "} stabilizer={"@ + stabilizer_text(a.stabilizer);
    let w = "} webhook={"@ + webhook_text(a.webhook) + "}"@;
    assert(args_text(a) =~= p + w);
    assert((p + w).skip(p.len() as int) =~= w);
    if a.webhook.webhook_url is None {
        law_webhook_text_none(a.webhook);
        assert(w =~= "} webhook={None}"@) by {
            reveal_strlit("} webhook={");
            reveal_strlit("None");
            reveal_strlit("}");
            reveal_strlit("} webhook={None}");
        }
    }
}

/// The description of all settings starts with the watcher part and then the
/// stabiliser part, each in braces: two settings whose watcher and stabiliser
/// parts are described alike are described alike exactly when their webhook
/// parts are.
pub proof fn law_args_text_parts(a1: Args, a2: Args)
    requires
        watcher_text(a1.watcher) == watcher_text(a2.watcher),
        stabilizer_text(a1.stabilizer) == stabilizer_text(a2.stabilizer),
    ensures
        (args_text(a1) == args_text(a2)) <==> (webhook_text(a1.webhook) == webhook_text(a2.webhook)),
{
    let p = "watcher={"@ + watcher_text(a1.watcher) + "} stabilizer={"@ + stabilizer_text(a1.stabilizer)
        + "} webhook={"@;
    assert(args_text(a1) =~= p + webhook_text(a1.webhook) + "}"@);
    assert(args_text(a2) =~= p + webhook_text(a2.webhook) + "}"@);
    lemma_cancel(p, webhook_text(a1.webhook), webhook_text(a2.webhook), "}"@);
}

/// The description of all settings.
pub open spec fn args_text(a: Args) -> Seq<char> {
    "watcher={"@ + watcher_text(a.watcher) + "} stabilizer={"@ + stabilizer_text(a.stabilizer)
        + "} webhook={"@ + webhook_text(a.webhook) + "}"@
}

/// Every byte is visible ASCII or a tab.
fn all_visible(bytes: &[u8]) -> (res: bool)
    ensures
        res == visible_bytes(bytes@),
{
    let n = bytes.len();
    let mut i: usize = 0;
    while i < n
        invariant
            n == bytes@.len(),
            0 <= i <= n,
            forall|j: int| 0 <= j < i ==> (32 <= #[trigger] bytes@[j] && bytes@[j] < 127) || bytes@[j] == 9,
        decreases n - i,
    {
        let b = bytes[i];
        if !((32 <= b && b < 127) || b == 9) {
            return false;
        }
        i = i + 1;
    }
    true
}

/// How one header is shown.
fn header_entry_string(h: &Header) -> (res: String)
    ensures
        res@ == header_entry(h@),
{
    let mut s = String::from_str(h.name());
    s.append(": ");
    let value = h.value();
    let quoted = if all_visible(value) {
        let text = ascii_text(value);
        debug_string(text.as_str())
    } else {
        debug_string("<binary>")
    };
    s.append(quoted.as_str());
    s
}

/// How a list of headers is shown.
fn header_entries_string(hs: &Vec<Header>) -> (res: String)
    ensures
        res@ == header_entries(header_views(hs@)),
{
    let ghost views = header_views(hs@);
    let n = hs.len();
    let mut s = String::new();
    for i in 0..n
        invariant
            n == hs@.len(),
            views == header_views(hs@),
            s@ == header_entries(views.take(i as int)),
    {
        if i > 0 {
            s.append(", ");
        }
        let entry = header_entry_string(&hs[i]);
        s.append(entry.as_str());
        proof {
            let next = views.take(i + 1);
            assert(next.drop_last() =~= views.take(i as int));
            assert(next.last() == hs@[i as int]@);
        }
    }
    assert(views.take(n as int) =~= views);
    s
}

impl WatcherArgs {
    /// The one-line description of these settings.
    pub fn to_text(&self) -> (res: String)
        ensures
            res@ == watcher_text(*self),
    {
        let mut s = String::from_str("path=");
        let path = path_debug_string(self.path.as_str());
        s.append(path.as_str());
        s.append(" interval=");
        let interval = self.interval.to_text();
        s.append(interval.as_str());
        s.append(" debounce=");
        let debounce = self.debounce.to_text();
        s.append(debounce.as_str());
        match &self.pattern {
            Some(p) => {
                s.append(" pattern=");
                let pattern = debug_string(p.as_str());
                s.append(pattern.as_str());
            },
            None => {},
        }
        s
    }
}

impl StabilizerArgs {
    /// The one-line description of these settings.
    pub fn to_text(&self) -> (res: String)
        ensures
            res@ == stabilizer_text(*self),
    {
        let mut s = String::from_str("cooldown=");
        let cooldown = self.cooldown.to_text();
        s.append(cooldown.as_str());
        s.append(" stable_count=");
        let stable = decimal_string(self.stable_count.get());
        s.append(stable.as_str());
        s.append(" error_count=");
        let errors = decimal_string(self.error_count.get());
        s.append(errors.as_str());
        s
    }
}

impl WebhookArgs {
    /// The one-line description of these settings; `None` without a URL.
    pub fn to_text(&self) -> (res: String)
        ensures
            res@ == webhook_text(*self),
    {
        match &self.webhook_url {
            Some(url) => {
                let mut s = String::from_str("url=");
                let quoted = debug_string(url.as_str());
                s.append(quoted.as_str());
                s.append(" retries=");
                let retries = decimal_string(self.webhook_retries);
                s.append(retries.as_str());
                s.append(" template=");
                s.append(self.webhook_template.as_str());
                if self.webhook_headers.len() > 0 {
                    s.append(" headers=[");
                    let headers = header_entries_string(&self.webhook_headers);
                    s.append(headers.as_str());
                    s.append("]");
                }
                s
            },
            None => String::from_str("None"),
        }
    }
}

impl Args {
    /// The one-line description of all settings.
    pub fn to_text(&self) -> (res: String)
        ensures
            res@ == args_text(*self),
    {
        let mut s = String::from_str("watcher={");
        let watcher = self.watcher.to_text();
        s.append(watcher.as_str());
        s.append("} stabilizer={");
        let stabilizer = self.stabilizer.to_text();
        s.append(stabilizer.as_str());
        s.append("} webhook={");
        let webhook = self.webhook.to_text();
        s.append(webhook.as_str());
        s.append("}");
        s
    }
}

impl Default for WatcherArgs {
    /// No path, no pattern, a poll every two seconds and five seconds of debounce.
    fn default() -> (res: WatcherArgs)
        ensures
            res.path@ == Seq::<char>::empty(),
            res.pattern is None,
            res.interval@ == (DEFAULT_INTERVAL_SECS, 0u32),
            res.debounce@ == (DEFAULT_DEBOUNCE_SECS, 0u32),
    {
        WatcherArgs {
            path: String::new(),
            pattern: None,
            interval: HumanDuration::from_secs(DEFAULT_INTERVAL_SECS),
            debounce: HumanDuration::from_secs(DEFAULT_DEBOUNCE_SECS),
        }
    }
}

impl Default for StabilizerArgs {
    /// A check every ten seconds; settled after three stable checks, given up
    /// after five failed ones.
    fn default() -> (res: StabilizerArgs)
        ensures
            res.cooldown@ == (DEFAULT_COOLDOWN_SECS, 0u32),
            res.stable_count@ == DEFAULT_STABLE_LIMIT,
            res.error_count@ == DEFAULT_ERROR_LIMIT,
    {
        StabilizerArgs {
            cooldown: HumanDuration::from_secs(DEFAULT_COOLDOWN_SECS),
            stable_count: NonZeroCount { value: DEFAULT_STABLE_LIMIT },
            error_count: NonZeroCount { value: DEFAULT_ERROR_LIMIT },
        }
    }
}

impl Default for WebhookArgs {
    /// No URL, the default template, three retries and no headers.
    fn default() -> (res: WebhookArgs)
        ensures
            res.webhook_url is None,
            res.webhook_template@ == DEFAULT_TEMPLATE@,
            res.webhook_retries == DEFAULT_RETRIES,
            res.webhook_headers@.len() == 0,
    {
        WebhookArgs {
            webhook_url: None,
            webhook_template: JsonTemplate::default_template(),
            webhook_retries: DEFAULT_RETRIES,
            webhook_headers: Vec::new(),
        }
    }
}

impl Default for Args {
    /// The defaults of each part.
    fn default() -> (res: Args)
        ensures
            res.watcher.path@ == Seq::<char>::empty(),
            res.watcher.pattern is None,
            res.watcher.interval@ == (DEFAULT_INTERVAL_SECS, 0u32),
            res.watcher.debounce@ == (DEFAULT_DEBOUNCE_SECS, 0u32),
            res.stabilizer.cooldown@ == (DEFAULT_COOLDOWN_SECS, 0u32),
            res.stabilizer.stable_count@ == DEFAULT_STABLE_LIMIT,
            res.stabilizer.error_count@ == DEFAULT_ERROR_LIMIT,
            res.webhook.webhook_url is None,
            res.webhook.webhook_template@ == DEFAULT_TEMPLATE@,
            res.webhook.webhook_retries == DEFAULT_RETRIES,
            res.webhook.webhook_headers@.len() == 0,
    {
        Args {
            watcher: WatcherArgs::default(),
            stabilizer: StabilizerArgs::default(),
            webhook: WebhookArgs::default(),
        }
    }
}

} // verus!
