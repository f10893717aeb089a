//! Credentials as the command-line tool sees them: the API client and key
//! records the server answers with, and the sink that holds freshly minted
//! secrets until they are revealed once, either inline on a terminal or in a
//! private file.

use vstd::prelude::*;
use crate::text::push_str;

verus! {

/// An API client as listed by the server.
#[derive(Debug, Clone)]
pub struct ApiClient {
    pub client_id: String,
    pub name: String,
    pub scopes: Vec<String>,
    pub is_active: bool,
    /// Absent on older servers; those rows are API-managed.
    pub managed_by: Option<String>,
}

impl ApiClient {
    /// Who manages this client: the server's `managed_by` field, or `api`
    /// when the server does not send one.
    pub fn owner(&self) -> (r: &str)
        ensures
            r@ == match self.managed_by {
                Some(m) => m@,
                None => "api"@,
            },
    {
        match &self.managed_by {
            Some(m) => m.as_str(),
            None => "api",
        }
    }
}

/// An API key as listed by the server (without its secret).
#[derive(Debug, Clone)]
pub struct ApiKeySummary {
    pub key_id: String,
    pub key_prefix: String,
    pub created_at: String,
    pub expires_at: Option<String>,
    pub revoked_at: Option<String>,
}

/// What the server answers when a client is created: the identity only.
#[derive(Debug, Clone)]
pub struct CreatedApiClient {
    pub client_id: String,
    pub name: String,
    pub scopes: Vec<String>,
}

/// What the server answers when a key is created, the raw key included
/// (shown this once).
#[derive(Debug, Clone)]
pub struct CreatedApiKey {
    pub raw_key: String,
    pub key_id: String,
    pub key_prefix: String,
    pub client_id: String,
}

/// File name, under the data directory, of the private credentials file.
pub const CREDENTIALS_FILE: &'static str = "initial-credentials";

/// One queued secret.
#[derive(Debug, Clone)]
pub struct Entry {
    pub label: String,
    pub value: String,
    pub usage: Option<String>,
}

/// An entry as plain values.
pub open spec fn entry_view(e: Entry) -> (Seq<char>, Seq<char>, Option<Seq<char>>) {
    (e.label@, e.value@, match e.usage {
        Some(u) => Some(u@),
        None => None,
    })
}

/// Collects secrets during a command and emits them once at the end,
/// inline on stdout when revealing, otherwise into a private file.
pub struct CredentialSink {
    reveal: bool,
    entries: Vec<Entry>,
}

/// How one entry reads on a terminal.
pub open spec fn inline_entry(e: (Seq<char>, Seq<char>, Option<Seq<char>>)) -> Seq<char> {
    seq!['\n'] + e.0 + ":\n"@ + "  "@ + e.1 + seq!['\n'] + match e.2 {
        Some(u) => "  "@ + u + seq!['\n'],
        None => Seq::empty(),
    }
}

/// How one entry reads in the credentials file.
pub open spec fn file_entry(e: (Seq<char>, Seq<char>, Option<Seq<char>>)) -> Seq<char> {
    seq!['\n'] + e.0 + ": "@ + e.1 + seq!['\n'] + match e.2 {
        Some(u) => "  "@ + u + seq!['\n'],
        None => Seq::empty(),
    }
}

/// The first `n` entries, each as `render` writes it.
pub open spec fn entries_text(
    es: Seq<(Seq<char>, Seq<char>, Option<Seq<char>>)>,
    n: int,
    inline: bool,
) -> Seq<char>
    decreases n,
{
    if n <= 0 {
        Seq::empty()
    } else {
        entries_text(es, n - 1, inline) + if inline {
            inline_entry(es[n - 1])
        } else {
            file_entry(es[n - 1])
        }
    }
}

/// The heading printed before revealed secrets.
pub open spec fn inline_heading() -> Seq<char> {
    "\n=== Credentials (save these — they won't be shown again) ===\n"@
}

/// The heading of the credentials file.
pub open spec fn file_heading() -> Seq<char> {
    "# Croniq initial credentials — generated once during init.\n# Copy these into your secret store, then delete this file.\n"@
}

impl CredentialSink {
    /// Whether the sink reveals secrets inline.
    pub closed spec fn reveals(&self) -> bool {
        self.reveal
    }

    /// The queued secrets, in order.
    pub closed spec fn queued(&self) -> Seq<(Seq<char>, Seq<char>, Option<Seq<char>>)> {
        self.entries@.map_values(|e: Entry| entry_view(e))
    }

    /// An empty sink that reveals inline when `reveal` holds.
    pub fn with_reveal(reveal: bool) -> (s: Self)
        ensures
            s.reveals() == reveal,
            s.queued() == Seq::<(Seq<char>, Seq<char>, Option<Seq<char>>)>::empty(),
    {
        let s = CredentialSink { reveal, entries: Vec::new() };
        assert(s.queued() =~= Seq::<(Seq<char>, Seq<char>, Option<Seq<char>>)>::empty());
        s
    }

    /// Queue a labelled secret (e.g. an admin login line).
    pub fn add(&mut self, label: &str, value: &str)
        ensures
            final(self).reveals() == old(self).reveals(),
            final(self).queued() == old(self).queued().push((label@, value@, None)),
    {
        let mut l = String::new();
        push_str(&mut l, label);
        let mut v = String::new();
        push_str(&mut v, value);
        self.entries.push(Entry { label: l, value: v, usage: None });
        assert(self.queued() =~= old(self).queued().push((label@, value@, None)));
    }

    /// Queue a labelled secret plus a usage hint that itself embeds the
    /// secret, so that the hint is gated by the same reveal decision.
    pub fn add_with_usage(&mut self, label: &str, value: &str, usage: &str)
        ensures
            final(self).reveals() == old(self).reveals(),
            final(self).queued() == old(self).queued().push((label@, value@, Some(usage@))),
    {
        let mut l = String::new();
        push_str(&mut l, label);
        let mut v = String::new();
        push_str(&mut v, value);
        let mut u = String::new();
        push_str(&mut u, usage);
        self.entries.push(Entry { label: l, value: v, usage: Some(u) });
        assert(self.queued() =~= old(self).queued().push((label@, value@, Some(usage@))));
    }

    /// Whether the sink reveals secrets inline.
    pub fn is_revealing(&self) -> (r: bool)
        ensures
            r == self.reveals(),
    {
        self.reveal
    }

    /// Whether nothing was queued (then nothing is emitted at all).
    pub fn is_empty(&self) -> (r: bool)
        ensures
            r == (self.queued().len() == 0),
    {
        self.entries.len() == 0
    }

    fn render(&self, heading: &str, inline: bool) -> (s: String)
        ensures
            s@ == heading@ + entries_text(self.queued(), self.queued().len() as int, inline),
    {
        let mut s = String::new();
        push_str(&mut s, heading);
        let ghost es = self.queued();
        let mut i: usize = 0;
        while i < self.entries.len()
            invariant
                i <= self.entries@.len(),
                es == self.queued(),
                es.len() == self.entries@.len(),
                s@ == heading@ + entries_text(es, i as int, inline),
            decreases self.entries@.len() - i,
        {
            let e = &self.entries[i];
            assert(es[i as int] == entry_view(*e));
            push_str(&mut s, "\n");
            push_str(&mut s, e.label.as_str());
            if inline {
                push_str(&mut s, ":\n");
                push_str(&mut s, "  ");
            } else {
                push_str(&mut s, ": ");
            }
            push_str(&mut s, e.value.as_str());
            push_str(&mut s, "\n");
            match &e.usage {
                Some(u) => {
                    push_str(&mut s, "  ");
                    push_str(&mut s, u.as_str());
                    push_str(&mut s, "\n");
                },
                None => {},
            }
            proof {
                reveal_strlit("\n");
            }
            i = i + 1;
            assert(s@ =~= heading@ + entries_text(es, i as int, inline));
        }
        s
    }

    /// What is printed when revealing: a heading, then each secret with its
    /// usage hint, then a blank line.
    pub fn inline_text(&self) -> (s: String)
        ensures
            s@ == inline_heading() + entries_text(self.queued(), self.queued().len() as int, true)
                + seq!['\n'],
    {
        let mut s = self.render(
            "\n=== Credentials (save these — they won't be shown again) ===\n",
            true,
        );
        crate::text::push_char(&mut s, '\n');
        s
    }

    /// The body of the private credentials file.
    pub fn file_body(&self) -> (s: String)
        ensures
            s@ == file_heading() + entries_text(self.queued(), self.queued().len() as int, false),
    {
        self.render(
            "# Croniq initial credentials — generated once during init.\n# Copy these into your secret store, then delete this file.\n",
            false,
        )
    }
}

// ─── Initial seeding ─────────────────────────────────────────────────────────

/// The required beginning of a seeded API key.
pub const API_KEY_PREFIX: &'static str = "croniq_";

/// The refusal of a seeded key that lacks the `croniq_` prefix; it quotes
/// the key's first six characters.
pub open spec fn bad_prefix_message(key: Seq<char>) -> Seq<char> {
    "--api-key must start with 'croniq_' (got prefix '"@ + key.take(
        if key.len() < 6 { key.len() as int } else { 6 },
    ) + "…'); e.g. CRONIQ_INIT_API_KEY=croniq_$(openssl rand -hex 32)"@
}

/// The scopes as plain values.
pub open spec fn scope_texts(v: Seq<String>) -> Seq<Seq<char>> {
    v.map_values(|s: String| s@)
}

/// What `croniq init` makes of `--api-key` and `--scopes` before it writes
/// anything: without a key nothing is seeded; a key must start with
/// `croniq_`; the scopes default to `admin` and must not be empty.
pub open spec fn spec_seed_request(key: Option<Seq<char>>, scopes: Option<Seq<Seq<char>>>) -> Result<
    Option<(Seq<char>, Seq<Seq<char>>)>,
    Seq<char>,
> {
    match key {
        None => Ok(None),
        Some(k) => if !(API_KEY_PREFIX@.len() <= k.len() && k.take(API_KEY_PREFIX@.len() as int)
            == API_KEY_PREFIX@) {
            Err(bad_prefix_message(k))
        } else {
            let s = match scopes {
                Some(s) => s,
                None => seq!["admin"@],
            };
            if s.len() == 0 {
                Err("--scopes must list at least one scope"@)
            } else {
                Ok(Some((k, s)))
            }
        },
    }
}

/// The seeded key as plain text, if any.
pub open spec fn opt_key_view(k: Option<&str>) -> Option<Seq<char>> {
    match k {
        Some(k) => Some(k@),
        None => None,
    }
}

/// The requested scopes as plain values, if any.
pub open spec fn opt_scopes_view(s: Option<Vec<String>>) -> Option<Seq<Seq<char>>> {
    match s {
        Some(v) => Some(scope_texts(v@)),
        None => None,
    }
}

/// A seeding decision as plain values.
pub open spec fn seed_result_view(r: Result<Option<(String, Vec<String>)>, String>) -> Result<
    Option<(Seq<char>, Seq<Seq<char>>)>,
    Seq<char>,
> {
    match r {
        Ok(None) => Ok(None),
        Ok(Some((k, v))) => Ok(Some((k@, scope_texts(v@)))),
        Err(e) => Err(e@),
    }
}

/// Check the key and scopes that `croniq init` is asked to seed, before
/// any write: `None` when no key was given, else the key and the scopes
/// to give its client.
pub fn init_seed_request(api_key_override: Option<&str>, scopes: Option<Vec<String>>) -> (r: Result<
    Option<(String, Vec<String>)>,
    String,
>)
    ensures
        seed_result_view(r) == spec_seed_request(opt_key_view(api_key_override), opt_scopes_view(scopes)),
{
    let raw_key = match api_key_override {
        None => return Ok(None),
        Some(k) => k,
    };
    let kc = crate::text::chars_of(raw_key);
    let pc = crate::text::chars_of(API_KEY_PREFIX);
    if !crate::text::chars_starts_with(kc.as_slice(), pc.as_slice()) {
        let n: usize = if kc.len() < 6 { kc.len() } else { 6 };
        let mut e = String::new();
        push_str(&mut e, "--api-key must start with 'croniq_' (got prefix '");
        let head = crate::text::string_of_range(kc.as_slice(), 0, n);
        push_str(&mut e, head.as_str());
        push_str(&mut e, "…'); e.g. CRONIQ_INIT_API_KEY=croniq_$(openssl rand -hex 32)");
        assert(kc@.subrange(0, n as int) =~= kc@.take(n as int));
        assert(e@ =~= bad_prefix_message(raw_key@));
        return Err(e);
    }
    let resolved = match scopes {
        Some(v) => v,
        None => {
            let mut admin = String::new();
            push_str(&mut admin, "admin");
            let v = vec![admin];
            assert(scope_texts(v@) =~= seq!["admin"@]);
            v
        },
    };
    if resolved.len() == 0 {
        let mut e = String::new();
        push_str(&mut e, "--scopes must list at least one scope");
        return Err(e);
    }
    let mut key = String::new();
    push_str(&mut key, raw_key);
    Ok(Some((key, resolved)))
}

// ─── Listings and checks of the credential commands ──────────────────────────

/// `s` left-aligned in a column of `w` characters (`{:<w}`): padded with
/// spaces, never cut.
pub open spec fn pad_right(s: Seq<char>, w: nat) -> Seq<char> {
    if s.len() >= w {
        s
    } else {
        s + Seq::new((w - s.len()) as nat, |i: int| ' ')
    }
}

/// `n` copies of `c`.
pub open spec fn repeat_char(c: char, n: nat) -> Seq<char> {
    Seq::new(n, |i: int| c)
}

/// Appends `s` left-aligned in a column of `w` characters.
pub(crate) fn push_padded(out: &mut String, s: &str, w: usize)
    ensures
        final(out)@ == old(out)@ + pad_right(s@, w as nat),
{
    let cs = crate::text::chars_of(s);
    let ghost base = out@ + s@;
    push_str(out, s);
    let mut k: usize = cs.len();
    assert(out@ =~= base + repeat_char(' ', 0));
    while k < w
        invariant
            cs@ == s@,
            s@.len() <= k,
            s@.len() < w ==> k <= w,
            s@.len() >= w ==> k == s@.len(),
            out@ == base + repeat_char(' ', (k - s@.len()) as nat),
        decreases w - k,
    {
        crate::text::push_char(out, ' ');
        k = k + 1;
        assert(out@ =~= base + repeat_char(' ', (k - s@.len()) as nat));
    }
    let ghost tail = pad_right(s@, w as nat).skip(s@.len() as int);
    if cs.len() < w {
        assert(k == w);
        assert(repeat_char(' ', (k - s@.len()) as nat) =~= tail);
    } else {
        assert(repeat_char(' ', (k - s@.len()) as nat) =~= tail);
    }
    assert(pad_right(s@, w as nat) =~= s@ + tail);
}

/// Appends `n` copies of `c`.
pub(crate) fn push_repeat(out: &mut String, c: char, n: usize)
    ensures
        final(out)@ == old(out)@ + repeat_char(c, n as nat),
{
    let ghost base = old(out)@;
    let mut k: usize = 0;
    while k < n
        invariant
            k <= n,
            out@ == base + repeat_char(c, k as nat),
        decreases n - k,
    {
        crate::text::push_char(out, c);
        k = k + 1;
        assert(out@ =~= base + repeat_char(c, k as nat));
    }
}

/// The scopes joined by commas.
pub open spec fn scopes_joined(v: Seq<String>) -> Seq<char> {
    crate::generator::join_sep(scope_texts(v), ","@)
}

/// Who manages a client, as plain text.
pub open spec fn owner_text(c: ApiClient) -> Seq<char> {
    match c.managed_by {
        Some(m) => m@,
        None => "api"@,
    }
}

/// `yes` or `no`.
pub open spec fn yes_no(b: bool) -> Seq<char> {
    if b {
        "yes"@
    } else {
        "no"@
    }
}

/// One row of the client listing.
pub open spec fn client_row(c: ApiClient) -> Seq<char> {
    pad_right(c.client_id@, 38) + " "@ + pad_right(c.name@, 20) + " "@ + pad_right(owner_text(c), 8)
        + " "@ + pad_right(yes_no(c.is_active), 8) + " "@ + scopes_joined(c.scopes@) + "\n"@
}

/// The first `n` rows of the client listing.
pub open spec fn client_rows(cs: Seq<ApiClient>, n: int) -> Seq<char>
    decreases n,
{
    if n <= 0 {
        Seq::empty()
    } else {
        client_rows(cs, n - 1) + client_row(cs[n - 1])
    }
}

/// The heading of the client listing and its rule.
pub open spec fn clients_heading() -> Seq<char> {
    pad_right("CLIENT ID"@, 38) + " "@ + pad_right("NAME"@, 20) + " "@ + pad_right("OWNER"@, 8) + " "@
        + pad_right("ACTIVE"@, 8) + " SCOPES\n"@ + repeat_char('-', 96) + "\n"@
}

/// The note printed when some client is owned by the environment.
pub open spec fn env_owned_note() -> Seq<char> {
    "\nClients owned by 'env' are declared with CRONIQ_API_CLIENT_<NAME>_KEY. Change the environment and reload — the API refuses to edit them.\n"@
}

/// What `croniq api-clients list` prints for these clients: a note when
/// there are none; else a table of id, name, owner, active flag and
/// scopes, and, when some client is owned by `env`, why the API will refuse
/// to edit it.
pub open spec fn clients_listing_text(cs: Seq<ApiClient>) -> Seq<char> {
    if cs.len() == 0 {
        "No API clients.\n"@
    } else {
        clients_heading() + client_rows(cs, cs.len() as int) + if exists|i: int|
            0 <= i < cs.len() && owner_text(#[trigger] cs[i]) == "env"@ {
            env_owned_note()
        } else {
            Seq::empty()
        }
    }
}

/// Appends one row of the client listing.
fn push_client_row(s: &mut String, c: &ApiClient)
    ensures
        final(s)@ == old(s)@ + client_row(*c),
{
    push_padded(s, c.client_id.as_str(), 38);
    push_str(s, " ");
    push_padded(s, c.name.as_str(), 20);
    push_str(s, " ");
    push_padded(s, c.owner(), 8);
    push_str(s, " ");
    push_padded(s, if c.is_active { "yes" } else { "no" }, 8);
    push_str(s, " ");
    let joined = crate::generator::join_strings(&c.scopes, ",");
    push_str(s, joined.as_str());
    push_str(s, "\n");
    proof {
        assert(crate::compile::strings_view(c.scopes@) =~= scope_texts(c.scopes@));
    }
    assert(s@ =~= old(s)@ + client_row(*c));
}

/// The text of `croniq api-clients list` (the table form).
pub fn clients_listing(clients: &[ApiClient]) -> (s: String)
    ensures
        s@ == clients_listing_text(clients@),
{
    let mut s = String::new();
    if clients.len() == 0 {
        push_str(&mut s, "No API clients.\n");
        return s;
    }
    push_padded(&mut s, "CLIENT ID", 38);
    push_str(&mut s, " ");
    push_padded(&mut s, "NAME", 20);
    push_str(&mut s, " ");
    push_padded(&mut s, "OWNER", 8);
    push_str(&mut s, " ");
    push_padded(&mut s, "ACTIVE", 8);
    push_str(&mut s, " SCOPES\n");
    push_repeat(&mut s, '-', 96);
    push_str(&mut s, "\n");
    assert(s@ =~= clients_heading());
    let mut any_env = false;
    let mut i: usize = 0;
    while i < clients.len()
        invariant
            i <= clients@.len(),
            s@ == clients_heading() + client_rows(clients@, i as int),
            any_env == exists|k: int| 0 <= k < i && owner_text(#[trigger] clients@[k]) == "env"@,
        decreases clients@.len() - i,
    {
        let c = &clients[i];
        push_client_row(&mut s, c);
        let owner = c.owner();
        if crate::text::str_eq(owner, "env") {
            any_env = true;
        }
        i = i + 1;
    }
    if any_env {
        push_str(
            &mut s,
            "\nClients owned by 'env' are declared with CRONIQ_API_CLIENT_<NAME>_KEY. Change the environment and reload — the API refuses to edit them.\n",
        );
    }
    s
}

/// A new client must have at least one scope.
pub fn check_client_scopes(scopes: &[String]) -> (r: Result<(), String>)
    ensures
        scopes@.len() > 0 <==> r is Ok,
        r matches Err(e) ==> e@ == "--scopes is required: a client with no scopes can authorise nothing"@,
{
    if scopes.len() == 0 {
        let mut e = String::new();
        push_str(&mut e, "--scopes is required: a client with no scopes can authorise nothing");
        return Err(e);
    }
    Ok(())
}

/// An update must change something: a name, the scopes or the active flag.
pub fn check_client_update(name: Option<&str>, scopes: Option<&[String]>, is_active: Option<bool>) -> (r: Result<(), String>)
    ensures
        (name is Some || scopes is Some || is_active is Some) <==> r is Ok,
        r matches Err(e) ==> e@ == "nothing to change — pass --name, --scopes, --active or --inactive"@,
{
    if name.is_none() && scopes.is_none() && is_active.is_none() {
        let mut e = String::new();
        push_str(&mut e, "nothing to change — pass --name, --scopes, --active or --inactive");
        return Err(e);
    }
    Ok(())
}

/// What `croniq api-clients create` prints for the created client.
pub open spec fn created_client_message(c: CreatedApiClient) -> Seq<char> {
    "Created API client '"@ + c.name@ + "'\n"@ + "  client_id: "@ + c.client_id@ + "\n"@
        + "  scopes:    "@ + scopes_joined(c.scopes@) + "\n"@ + "\n"@
        + "Mint a key for it with:  croniq api-keys create --client "@ + c.client_id@ + "\n"@
}

/// The text of `croniq api-clients create` (the plain form).
pub fn created_client_text(c: &CreatedApiClient) -> (s: String)
    ensures
        s@ == created_client_message(*c),
{
    let mut s = String::new();
    push_str(&mut s, "Created API client '");
    push_str(&mut s, c.name.as_str());
    push_str(&mut s, "'\n");
    push_str(&mut s, "  client_id: ");
    push_str(&mut s, c.client_id.as_str());
    push_str(&mut s, "\n");
    push_str(&mut s, "  scopes:    ");
    let joined = crate::generator::join_strings(&c.scopes, ",");
    push_str(&mut s, joined.as_str());
    push_str(&mut s, "\n");
    push_str(&mut s, "\n");
    push_str(&mut s, "Mint a key for it with:  croniq api-keys create --client ");
    push_str(&mut s, c.client_id.as_str());
    push_str(&mut s, "\n");
    proof {
        assert(crate::compile::strings_view(c.scopes@) =~= scope_texts(c.scopes@));
        assert(s@ =~= created_client_message(*c));
    }
    s
}

/// What `croniq api-clients update` prints for the updated client.
pub open spec fn updated_client_message(c: ApiClient) -> Seq<char> {
    "Updated API client '"@ + c.name@ + "'\n"@ + "  scopes: "@ + scopes_joined(c.scopes@) + "\n"@
        + "  active: "@ + yes_no(c.is_active) + "\n"@
}

/// The text of `croniq api-clients update` (the plain form).
pub fn updated_client_text(c: &ApiClient) -> (s: String)
    ensures
        s@ == updated_client_message(*c),
{
    let mut s = String::new();
    push_str(&mut s, "Updated API client '");
    push_str(&mut s, c.name.as_str());
    push_str(&mut s, "'\n");
    push_str(&mut s, "  scopes: ");
    let joined = crate::generator::join_strings(&c.scopes, ",");
    push_str(&mut s, joined.as_str());
    push_str(&mut s, "\n");
    push_str(&mut s, "  active: ");
    push_str(&mut s, if c.is_active { "yes" } else { "no" });
    push_str(&mut s, "\n");
    proof {
        assert(crate::compile::strings_view(c.scopes@) =~= scope_texts(c.scopes@));
        assert(s@ =~= updated_client_message(*c));
    }
    s
}

/// What `croniq api-keys create` prints: the raw key, shown this once.
pub open spec fn created_key_message(k: CreatedApiKey) -> Seq<char> {
    "Created API key for client "@ + k.client_id@ + "\n"@ + "\n"@ + "  "@ + k.raw_key@ + "\n"@ + "\n"@
        + "This is the only time the key is shown. key_id: "@ + k.key_id@ + "\n"@
}

/// The text of `croniq api-keys create` (the plain form).
pub fn created_key_text(k: &CreatedApiKey) -> (s: String)
    ensures
        s@ == created_key_message(*k),
{
    let mut s = String::new();
    push_str(&mut s, "Created API key for client ");
    push_str(&mut s, k.client_id.as_str());
    push_str(&mut s, "\n");
    push_str(&mut s, "\n");
    push_str(&mut s, "  ");
    push_str(&mut s, k.raw_key.as_str());
    push_str(&mut s, "\n");
    push_str(&mut s, "\n");
    push_str(&mut s, "This is the only time the key is shown. key_id: ");
    push_str(&mut s, k.key_id.as_str());
    push_str(&mut s, "\n");
    assert(s@ =~= created_key_message(*k));
    s
}

/// Whether instant `a` (Unix seconds and nanoseconds) is before `b`.
pub open spec fn instant_before(a: (i64, u32), b: (i64, u32)) -> bool {
    a.0 < b.0 || (a.0 == b.0 && a.1 < b.1)
}

/// The state of a key at instant `now`: `revoked` whatever its expiry;
/// `expired` once its expiry is strictly past; `retiring` while a deadline
/// lies ahead or cannot be read; `active` with no deadline.
pub open spec fn spec_key_state(k: ApiKeySummary, now: (i64, u32)) -> Seq<char> {
    if k.revoked_at is Some {
        "revoked"@
    } else {
        match k.expires_at {
            None => "active"@,
            Some(e) => match crate::generator::rfc3339_instant(e@) {
                Ok(t) => if instant_before(t, now) {
                    "expired"@
                } else {
                    "retiring"@
                },
                Err(_) => "retiring"@,
            },
        }
    }
}

/// The state to print for one key at `now` (Unix seconds and nanoseconds).
pub fn key_state(key: &ApiKeySummary, now_secs: i64, now_nanos: u32) -> (r: &'static str)
    ensures
        r@ == spec_key_state(*key, (now_secs, now_nanos)),
{
    if key.revoked_at.is_some() {
        return "revoked";
    }
    match &key.expires_at {
        None => "active",
        Some(e) => match crate::generator::parse_instant(e.as_str()) {
            Ok(t) => if t.0 < now_secs || (t.0 == now_secs && t.1 < now_nanos) {
                "expired"
            } else {
                "retiring"
            },
            Err(_) => "retiring",
        },
    }
}

/// One row of the key listing.
pub open spec fn key_row(k: ApiKeySummary, now: (i64, u32)) -> Seq<char> {
    pad_right(k.key_id@, 38) + " "@ + pad_right(k.key_prefix@, 14) + " "@ + pad_right(
        spec_key_state(k, now),
        10,
    ) + " "@ + pad_right(
        match k.expires_at {
            Some(e) => e@,
            None => "-"@,
        },
        26,
    ) + " "@ + k.created_at@ + "\n"@
}

/// The first `n` rows of the key listing.
pub open spec fn key_rows(ks: Seq<ApiKeySummary>, n: int, now: (i64, u32)) -> Seq<char>
    decreases n,
{
    if n <= 0 {
        Seq::empty()
    } else {
        key_rows(ks, n - 1, now) + key_row(ks[n - 1], now)
    }
}

/// The heading of the key listing and its rule.
pub open spec fn keys_heading() -> Seq<char> {
    pad_right("KEY ID"@, 38) + " "@ + pad_right("PREFIX"@, 14) + " "@ + pad_right("STATE"@, 10) + " "@
        + pad_right("EXPIRES"@, 26) + " CREATED\n"@ + repeat_char('-', 110) + "\n"@
}

/// The note printed when some key is retiring.
pub open spec fn retiring_note() -> Seq<char> {
    "\nA 'retiring' key was replaced by a rotation and stops working at its expiry. To end one now: croniq api-keys revoke <key-id>\n"@
}

/// The note printed when some key has expired.
pub open spec fn expired_note() -> Seq<char> {
    "\nAn 'expired' key's rotation grace window has already elapsed — the server rejects it with 401. The row stays for audit; nothing needs doing.\n"@
}

/// Whether some key is in the given state at `now`.
pub open spec fn some_key_in(ks: Seq<ApiKeySummary>, state: Seq<char>, now: (i64, u32)) -> bool {
    exists|i: int| 0 <= i < ks.len() && spec_key_state(#[trigger] ks[i], now) == state
}

/// What `croniq api-keys list` prints for a client's keys at `now`: a note
/// when there are none; else a table of id, prefix, state, expiry and
/// creation, and a note for each of the retiring and expired states that
/// some key is in.
pub open spec fn keys_listing_text(client_id: Seq<char>, ks: Seq<ApiKeySummary>, now: (i64, u32)) -> Seq<char> {
    if ks.len() == 0 {
        "No API keys for client "@ + client_id + ".\n"@
    } else {
        keys_heading() + key_rows(ks, ks.len() as int, now) + (if some_key_in(ks, "retiring"@, now) {
            retiring_note()
        } else {
            Seq::empty()
        }) + (if some_key_in(ks, "expired"@, now) {
            expired_note()
        } else {
            Seq::empty()
        })
    }
}

/// Appends one row of the key listing; gives the key's state.
fn push_key_row(s: &mut String, k: &ApiKeySummary, now_secs: i64, now_nanos: u32) -> (state: &'static str)
    ensures
        final(s)@ == old(s)@ + key_row(*k, (now_secs, now_nanos)),
        state@ == spec_key_state(*k, (now_secs, now_nanos)),
{
    let state = key_state(k, now_secs, now_nanos);
    push_padded(s, k.key_id.as_str(), 38);
    push_str(s, " ");
    push_padded(s, k.key_prefix.as_str(), 14);
    push_str(s, " ");
    push_padded(s, state, 10);
    push_str(s, " ");
    let expires: &str = match &k.expires_at {
        Some(e) => e.as_str(),
        None => "-",
    };
    push_padded(s, expires, 26);
    push_str(s, " ");
    push_str(s, k.created_at.as_str());
    push_str(s, "\n");
    assert(s@ =~= old(s)@ + key_row(*k, (now_secs, now_nanos)));
    state
}

/// The text of `croniq api-keys list` (the table form) at `now`.
pub fn keys_listing(client_id: &str, keys: &[ApiKeySummary], now_secs: i64, now_nanos: u32) -> (s: String)
    ensures
        s@ == keys_listing_text(client_id@, keys@, (now_secs, now_nanos)),
{
    let ghost now = (now_secs, now_nanos);
    let mut s = String::new();
    if keys.len() == 0 {
        push_str(&mut s, "No API keys for client ");
        push_str(&mut s, client_id);
        push_str(&mut s, ".\n");
        return s;
    }
    push_padded(&mut s, "KEY ID", 38);
    push_str(&mut s, " ");
    push_padded(&mut s, "PREFIX", 14);
    push_str(&mut s, " ");
    push_padded(&mut s, "STATE", 10);
    push_str(&mut s, " ");
    push_padded(&mut s, "EXPIRES", 26);
    push_str(&mut s, " CREATED\n");
    push_repeat(&mut s, '-', 110);
    push_str(&mut s, "\n");
    assert(s@ =~= keys_heading());
    let mut any_retiring = false;
    let mut any_expired = false;
    let mut i: usize = 0;
    while i < keys.len()
        invariant
            i <= keys@.len(),
            now == (now_secs, now_nanos),
            s@ == keys_heading() + key_rows(keys@, i as int, now),
            any_retiring == exists|k: int| 0 <= k < i && spec_key_state(#[trigger] keys@[k], now) == "retiring"@,
            any_expired == exists|k: int| 0 <= k < i && spec_key_state(#[trigger] keys@[k], now) == "expired"@,
        decreases keys@.len() - i,
    {
        let k = &keys[i];
        let state = push_key_row(&mut s, k, now_secs, now_nanos);
        if crate::text::str_eq(state, "retiring") {
            any_retiring = true;
        }
        if crate::text::str_eq(state, "expired") {
            any_expired = true;
        }
        i = i + 1;
    }
    if any_retiring {
        push_str(
            &mut s,
            "\nA 'retiring' key was replaced by a rotation and stops working at its expiry. To end one now: croniq api-keys revoke <key-id>\n",
        );
    }
    if any_expired {
        push_str(
            &mut s,
            "\nAn 'expired' key's rotation grace window has already elapsed — the server rejects it with 401. The row stays for audit; nothing needs doing.\n",
        );
    }
    s
}

} // verus!
