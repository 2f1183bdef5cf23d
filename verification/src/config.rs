//! The configuration, as the environment gives it.
//!
//! Everything is checked before anything starts, in a fixed order; the first check that fails
//! is the error.

use vstd::prelude::*;

use crate::ids::{is_room_id, is_user_id, valid_room_id, valid_user_id};
use crate::paths::{has_parent, is_sibling, path_view, sibling};
use crate::text::{
    blank_text, id_texts, is_blank, lemma_precedes_irreflexive, lemma_precedes_total,
    lemma_precedes_transitive, option_text, precedes, same_text, split, split_chars, text_precedes,
    texts, to_chars, to_text, trim, trimmed,
};

verus! {

broadcast use vstd::string::group_string_axioms;

/// A variable of the environment.
#[derive(Clone, Copy, Debug, PartialEq, Eq, Structural)]
pub enum Variable {
    Enabled,
    Homeserver,
    UserId,
    DeviceId,
    AccessTokenFile,
    StorePath,
    StorePassphraseFile,
    StateDb,
    Socket,
    MediaTempPath,
    TranscribeCommand,
    TtsCommand,
    TtsVoice,
    RoomId,
    RoomIds,
    SenderId,
    RequireVerifiedDevice,
    AllowCrossSigningRepair,
}

/// The name of a variable.
pub open spec fn variable_name(variable: Variable) -> Seq<char> {
    match variable {
        Variable::Enabled => "MATRIX_AGENT_ENABLED"@,
        Variable::Homeserver => "MATRIX_AGENT_HOMESERVER"@,
        Variable::UserId => "MATRIX_AGENT_USER_ID"@,
        Variable::DeviceId => "MATRIX_AGENT_DEVICE_ID"@,
        Variable::AccessTokenFile => "MATRIX_AGENT_ACCESS_TOKEN_FILE"@,
        Variable::StorePath => "MATRIX_AGENT_STORE_PATH"@,
        Variable::StorePassphraseFile => "MATRIX_AGENT_STORE_PASSPHRASE_FILE"@,
        Variable::StateDb => "MATRIX_AGENT_STATE_DB"@,
        Variable::Socket => "MATRIX_AGENT_SOCKET"@,
        Variable::MediaTempPath => "MATRIX_AGENT_MEDIA_TEMP_PATH"@,
        Variable::TranscribeCommand => "MATRIX_AGENT_TRANSCRIBE_COMMAND"@,
        Variable::TtsCommand => "MATRIX_AGENT_TTS_COMMAND"@,
        Variable::TtsVoice => "MATRIX_AGENT_TTS_VOICE"@,
        Variable::RoomId => "MATRIX_AGENT_ROOM_ID"@,
        Variable::RoomIds => "MATRIX_AGENT_ROOM_IDS"@,
        Variable::SenderId => "MATRIX_AGENT_SENDER_ID"@,
        Variable::RequireVerifiedDevice => "MATRIX_AGENT_REQUIRE_VERIFIED_DEVICE"@,
        Variable::AllowCrossSigningRepair => "MATRIX_AGENT_ALLOW_CROSS_SIGNING_REPAIR"@,
    }
}

impl Variable {
    /// The name of the variable.
    pub fn name(&self) -> (r: &'static str)
        ensures
            r@ == variable_name(*self),
    {
        match self {
            Variable::Enabled => "MATRIX_AGENT_ENABLED",
            Variable::Homeserver => "MATRIX_AGENT_HOMESERVER",
            Variable::UserId => "MATRIX_AGENT_USER_ID",
            Variable::DeviceId => "MATRIX_AGENT_DEVICE_ID",
            Variable::AccessTokenFile => "MATRIX_AGENT_ACCESS_TOKEN_FILE",
            Variable::StorePath => "MATRIX_AGENT_STORE_PATH",
            Variable::StorePassphraseFile => "MATRIX_AGENT_STORE_PASSPHRASE_FILE",
            Variable::StateDb => "MATRIX_AGENT_STATE_DB",
            Variable::Socket => "MATRIX_AGENT_SOCKET",
            Variable::MediaTempPath => "MATRIX_AGENT_MEDIA_TEMP_PATH",
            Variable::TranscribeCommand => "MATRIX_AGENT_TRANSCRIBE_COMMAND",
            Variable::TtsCommand => "MATRIX_AGENT_TTS_COMMAND",
            Variable::TtsVoice => "MATRIX_AGENT_TTS_VOICE",
            Variable::RoomId => "MATRIX_AGENT_ROOM_ID",
            Variable::RoomIds => "MATRIX_AGENT_ROOM_IDS",
            Variable::SenderId => "MATRIX_AGENT_SENDER_ID",
            Variable::RequireVerifiedDevice => "MATRIX_AGENT_REQUIRE_VERIFIED_DEVICE",
            Variable::AllowCrossSigningRepair => "MATRIX_AGENT_ALLOW_CROSS_SIGNING_REPAIR",
        }
    }
}

/// What was found at a path.
#[derive(Clone, Copy, Debug, PartialEq, Eq, Structural)]
pub struct FileFacts {
    pub is_file: bool,
    pub mode: u32,
}

/// The environment: its variables, and what was found at the paths of the two commands, if
/// anything could be.
#[derive(Debug)]
pub struct Environment {
    pub values: Vec<(String, String)>,
    pub transcriber: Option<FileFacts>,
    pub synthesizer: Option<FileFacts>,
}

/// The value of the first variable of the given name, at or after position `from`.
pub open spec fn lookup(values: Seq<(String, String)>, name: Seq<char>, from: int) -> Option<
    Seq<char>,
>
    decreases values.len() - from,
{
    if from >= values.len() {
        None
    } else if values[from].0@ == name {
        Some(values[from].1@)
    } else {
        lookup(values, name, from + 1)
    }
}

impl Environment {
    /// The value of a variable.
    pub open spec fn at(&self, variable: Variable) -> Option<Seq<char>> {
        lookup(self.values@, variable_name(variable), 0)
    }

    /// The value of a variable that is set.
    pub open spec fn text(&self, variable: Variable) -> Seq<char> {
        self.at(variable)->0
    }

    /// The value of a variable.
    pub fn value(&self, variable: Variable) -> (r: Option<String>)
        ensures
            option_text(r) == self.at(variable),
    {
        let name = variable.name();
        let mut i: usize = 0;
        while i < self.values.len()
            invariant
                i <= self.values@.len(),
                name@ == variable_name(variable),
                self.at(variable) == lookup(self.values@, name@, i as int),
            decreases self.values@.len() - i,
        {
            if same_text(self.values[i].0.as_str(), name) {
                return Some(self.values[i].1.as_str().to_owned());
            }
            i = i + 1;
        }
        None
    }
}

/// Why a configuration was refused.
#[derive(Debug, PartialEq, Eq)]
pub enum ConfigError {
    /// The transport is not switched on.
    Disabled,
    /// The variable is not set.
    Missing(Variable),
    /// The variable is blank.
    Empty(Variable),
    /// The state database has no parent directory.
    NoParent,
    /// The media directory is not the `media-tmp` sibling of the state database.
    NotSibling,
    /// The default room id is malformed.
    InvalidRoomId,
    /// An additional room id is malformed.
    InvalidRoomEntry(String),
    /// The user id is malformed.
    InvalidUserId,
    /// The command could not be inspected.
    Unreadable(Variable),
    /// The command is not an executable regular file.
    NotExecutable(Variable),
    /// The sender id is malformed.
    InvalidSenderId,
}

/// Why a configuration was refused.
pub enum RefusalView {
    Disabled,
    Missing(Variable),
    Empty(Variable),
    NoParent,
    NotSibling,
    InvalidRoomId,
    InvalidRoomEntry(Seq<char>),
    InvalidUserId,
    Unreadable(Variable),
    NotExecutable(Variable),
    InvalidSenderId,
}

impl View for ConfigError {
    type V = RefusalView;

    open spec fn view(&self) -> RefusalView {
        match self {
            ConfigError::Disabled => RefusalView::Disabled,
            ConfigError::Missing(variable) => RefusalView::Missing(*variable),
            ConfigError::Empty(variable) => RefusalView::Empty(*variable),
            ConfigError::NoParent => RefusalView::NoParent,
            ConfigError::NotSibling => RefusalView::NotSibling,
            ConfigError::InvalidRoomId => RefusalView::InvalidRoomId,
            ConfigError::InvalidRoomEntry(entry) => RefusalView::InvalidRoomEntry(entry@),
            ConfigError::InvalidUserId => RefusalView::InvalidUserId,
            ConfigError::Unreadable(variable) => RefusalView::Unreadable(*variable),
            ConfigError::NotExecutable(variable) => RefusalView::NotExecutable(*variable),
            ConfigError::InvalidSenderId => RefusalView::InvalidSenderId,
        }
    }
}

/// The configuration.
#[derive(Clone, Debug)]
pub struct Config {
    pub homeserver: String,
    pub user_id: String,
    pub device_id: String,
    pub access_token_file: String,
    pub store_path: String,
    pub store_passphrase_file: String,
    pub state_db: String,
    pub socket: String,
    pub media_temp_path: String,
    pub transcribe_command: String,
    pub tts_command: String,
    pub tts_voice: String,
    pub room_id: String,
    pub room_ids: Vec<String>,
    pub sender_id: String,
    pub require_verified_device: bool,
    pub allow_cross_signing_repair: bool,
}

// ---------------------------------------------------------------------------
// Rooms
// ---------------------------------------------------------------------------

/// The trimmed pieces between commas that are not blank.
pub open spec fn entries(list: Seq<char>) -> Seq<Seq<char>> {
    trimmed_pieces(split(list, ','))
}

/// The trimmed pieces that are not blank.
pub open spec fn trimmed_pieces(pieces: Seq<Seq<char>>) -> Seq<Seq<char>>
    decreases pieces.len(),
{
    if pieces.len() == 0 {
        Seq::empty()
    } else {
        let before = trimmed_pieces(pieces.drop_last());
        if is_blank(pieces.last()) {
            before
        } else {
            before.push(trim(pieces.last()))
        }
    }
}

/// The first entry at or after position `from` that is not a room id.
pub open spec fn first_malformed(ids: Seq<Seq<char>>, from: int) -> Option<Seq<char>>
    decreases ids.len() - from,
{
    if from >= ids.len() {
        None
    } else if valid_room_id(ids[from]) {
        first_malformed(ids, from + 1)
    } else {
        Some(ids[from])
    }
}

/// True when the texts ascend, so that none occurs twice.
pub open spec fn ascending(ids: Seq<Seq<char>>) -> bool {
    forall|i: int, j: int|
        0 <= i < j < ids.len() ==> precedes(#[trigger] ids[i], #[trigger] ids[j])
}

/// True for the list of the given room and the further ones, in ascending order, each once.
pub open spec fn is_room_list(list: Seq<Seq<char>>, room_id: Seq<char>, more: Seq<Seq<char>>) -> bool {
    ascending(list) && forall|id: Seq<char>|
        #![trigger list.contains(id)]
        list.contains(id) <==> id == room_id || more.contains(id)
}

/// Two ascending lists of the same texts are one list.
pub proof fn lemma_ascending_once(a: Seq<Seq<char>>, b: Seq<Seq<char>>)
    requires
        ascending(a),
        ascending(b),
        forall|id: Seq<char>| #![trigger a.contains(id)] a.contains(id) <==> b.contains(id),
    ensures
        a == b,
    decreases a.len(),
{
    if a.len() == 0 {
        if b.len() > 0 {
            assert(b.contains(b[0]));
            assert(a.contains(b[0]));
        }
        assert(a =~= b);
    } else {
        let x = a.drop_last();
        let y = b.drop_last();
        assert(a.contains(a.last()));
        assert(b.contains(a.last()));
        assert(b.contains(b.last()));
        assert(a.contains(b.last()));
        let k = choose|k: int| 0 <= k < b.len() && b[k] == a.last();
        let m = choose|m: int| 0 <= m < a.len() && a[m] == b.last();
        if k < b.len() - 1 {
            assert(precedes(b[k], b.last()));
            if m < a.len() - 1 {
                assert(precedes(a[m], a.last()));
                lemma_precedes_transitive(a.last(), b.last(), a.last());
            }
            lemma_precedes_irreflexive(a.last());
        }
        assert(a.last() == b.last());
        assert forall|id: Seq<char>| #![trigger x.contains(id)] x.contains(id) <==> y.contains(
            id,
        ) by {
            lemma_precedes_irreflexive(a.last());
            if x.contains(id) {
                let i = choose|i: int| 0 <= i < x.len() && x[i] == id;
                assert(a[i] == id);
                assert(a.contains(id));
                assert(precedes(a[i], a.last()));
                let j = choose|j: int| 0 <= j < b.len() && b[j] == id;
                assert(y[j] == id);
            }
            if y.contains(id) {
                let i = choose|i: int| 0 <= i < y.len() && y[i] == id;
                assert(b[i] == id);
                assert(b.contains(id));
                assert(a.contains(id));
                assert(precedes(b[i], b.last()));
                let j = choose|j: int| 0 <= j < a.len() && a[j] == id;
                assert(x[j] == id);
            }
        }
        assert(ascending(x)) by {
            assert forall|i: int, j: int| 0 <= i < j < x.len() implies precedes(
                #[trigger] x[i],
                #[trigger] x[j],
            ) by {
                assert(precedes(a[i], a[j]));
            }
        }
        assert(ascending(y)) by {
            assert forall|i: int, j: int| 0 <= i < j < y.len() implies precedes(
                #[trigger] y[i],
                #[trigger] y[j],
            ) by {
                assert(precedes(b[i], b[j]));
            }
        }
        lemma_ascending_once(x, y);
        assert(a =~= x.push(a.last()));
        assert(b =~= y.push(b.last()));
    }
}

fn entry_list(list: &str) -> (r: Vec<String>)
    ensures
        id_texts(r@) == entries(list@),
{
    let chars = to_chars(list);
    let pieces = split_chars(chars.as_slice(), ',');
    let ghost all = split(list@, ',');
    let mut out: Vec<String> = Vec::new();
    let mut i: usize = 0;
    proof {
        assert(all.take(0) =~= Seq::<Seq<char>>::empty());
        assert(id_texts(out@) =~= Seq::<Seq<char>>::empty());
    }
    while i < pieces.len()
        invariant
            texts(pieces@) == all,
            i <= pieces@.len(),
            id_texts(out@) == trimmed_pieces(all.take(i as int)),
        decreases pieces@.len() - i,
    {
        let piece = trimmed(pieces[i].as_slice());
        proof {
            assert(all[i as int] == pieces@[i as int]@);
            assert(all.take(i + 1).drop_last() =~= all.take(i as int));
        }
        if piece.len() > 0 {
            let ghost before = id_texts(out@);
            out.push(to_text(piece));
            proof {
                assert(id_texts(out@) =~= before.push(trim(all[i as int])));
            }
        }
        i = i + 1;
    }
    proof {
        assert(all.take(i as int) =~= all);
    }
    out
}

fn malformed_entry(ids: &Vec<String>) -> (r: Option<String>)
    ensures
        option_text(r) == first_malformed(id_texts(ids@), 0),
{
    let mut i: usize = 0;
    let ghost all = id_texts(ids@);
    while i < ids.len()
        invariant
            i <= ids@.len(),
            all == id_texts(ids@),
            first_malformed(all, 0) == first_malformed(all, i as int),
        decreases ids@.len() - i,
    {
        if !is_room_id(ids[i].as_str()) {
            return Some(ids[i].as_str().to_owned());
        }
        i = i + 1;
    }
    None
}

fn insert_ascending(list: &mut Vec<String>, id: &str)
    requires
        ascending(id_texts(old(list)@)),
    ensures
        ascending(id_texts(final(list)@)),
        forall|x: Seq<char>|
            #![trigger id_texts(final(list)@).contains(x)]
            id_texts(final(list)@).contains(x) <==> x == id@ || id_texts(old(list)@).contains(x),
{
    let ghost before = id_texts(list@);
    let mut at: usize = 0;
    while at < list.len() && text_precedes(list[at].as_str(), id)
        invariant
            at <= list@.len(),
            before == id_texts(list@),
            forall|j: int| 0 <= j < at ==> precedes(#[trigger] before[j], id@),
        decreases list@.len() - at,
    {
        proof {
            assert(before[at as int] == list@[at as int]@);
        }
        at = at + 1;
    }
    if at < list.len() && same_text(list[at].as_str(), id) {
        proof {
            assert(before[at as int] == id@);
            assert(before.contains(id@));
        }
        return;
    }
    proof {
        if at < list@.len() {
            assert(before[at as int] == list@[at as int]@);
            lemma_precedes_total(before[at as int], id@);
        }
    }
    list.insert(at, id.to_owned());
    proof {
        let after = id_texts(list@);
        assert(after =~= before.insert(at as int, id@));
        assert forall|i: int, j: int| 0 <= i < j < after.len() implies precedes(
            #[trigger] after[i],
            #[trigger] after[j],
        ) by {
            if j < at {
                assert(precedes(before[i], before[j]));
            } else if i > at {
                assert(precedes(before[i - 1], before[j - 1]));
            } else if i < at && j > at {
                assert(precedes(before[i], before[j - 1]));
            } else if i == at {
                if j - 1 > at {
                    assert(precedes(before[at as int], before[j - 1]));
                    lemma_precedes_transitive(id@, before[at as int], before[j - 1]);
                }
            }
        }
        assert forall|x: Seq<char>| #![trigger after.contains(x)] after.contains(x) <==> x == id@
            || before.contains(x) by {
            if after.contains(x) {
                let k = choose|k: int| 0 <= k < after.len() && after[k] == x;
                if k < at {
                    assert(before[k] == x);
                } else if k > at {
                    assert(before[k - 1] == x);
                }
            }
            if x == id@ {
                assert(after[at as int] == x);
            }
            if before.contains(x) {
                let k = choose|k: int| 0 <= k < before.len() && before[k] == x;
                if k < at {
                    assert(after[k] == x);
                } else {
                    assert(after[k + 1] == x);
                }
            }
        }
    }
}

fn room_list(room_id: &str, more: &Vec<String>) -> (r: Vec<String>)
    ensures
        is_room_list(id_texts(r@), room_id@, id_texts(more@)),
{
    let mut list: Vec<String> = Vec::new();
    proof {
        assert(id_texts(list@) =~= Seq::<Seq<char>>::empty());
    }
    insert_ascending(&mut list, room_id);
    let mut i: usize = 0;
    let ghost all = id_texts(more@);
    while i < more.len()
        invariant
            i <= more@.len(),
            all == id_texts(more@),
            is_room_list(id_texts(list@), room_id@, all.take(i as int)),
        decreases more@.len() - i,
    {
        let ghost before = id_texts(list@);
        insert_ascending(&mut list, more[i].as_str());
        proof {
            let after = id_texts(list@);
            let sofar = all.take(i as int);
            let next = all.take(i + 1);
            assert(all[i as int] == more@[i as int]@);
            assert forall|id: Seq<char>| #![trigger after.contains(id)] after.contains(id) <==> id
                == room_id@ || next.contains(id) by {
                assert(before.contains(id) <==> id == room_id@ || sofar.contains(id));
                if sofar.contains(id) {
                    let k = choose|k: int| 0 <= k < sofar.len() && sofar[k] == id;
                    assert(next[k] == id);
                }
                if id == all[i as int] {
                    assert(next[i as int] == id);
                }
                if next.contains(id) {
                    let k = choose|k: int| 0 <= k < next.len() && next[k] == id;
                    if k < i {
                        assert(sofar[k] == id);
                    }
                }
            }
        }
        i = i + 1;
    }
    proof {
        assert(all.take(i as int) =~= all);
    }
    list
}

// ---------------------------------------------------------------------------
// Checks
// ---------------------------------------------------------------------------

/// True when a variable is set to `1`.
pub open spec fn is_on(env: Environment, variable: Variable) -> bool {
    env.at(variable) == Some("1"@)
}

/// A variable must be set and not blank.
pub open spec fn check_set(env: Environment, variable: Variable) -> Option<RefusalView> {
    match env.at(variable) {
        None => Some(RefusalView::Missing(variable)),
        Some(value) => if is_blank(value) {
            Some(RefusalView::Empty(variable))
        } else {
            None
        },
    }
}

/// True for an executable regular file.
pub open spec fn is_executable(facts: FileFacts) -> bool {
    facts.is_file && facts.mode & 0o111 != 0
}

/// A variable must name an executable regular file.
pub open spec fn check_command(
    env: Environment,
    variable: Variable,
    found: Option<FileFacts>,
) -> Option<RefusalView> {
    match check_set(env, variable) {
        Some(refusal) => Some(refusal),
        None => match found {
            None => Some(RefusalView::Unreadable(variable)),
            Some(facts) => if is_executable(facts) {
                None
            } else {
                Some(RefusalView::NotExecutable(variable))
            },
        },
    }
}

/// A variable must be set, not blank, and well formed (`well_formed`).
pub open spec fn check_formed(
    env: Environment,
    variable: Variable,
    well_formed: bool,
    refusal: RefusalView,
) -> Option<RefusalView> {
    match check_set(env, variable) {
        Some(earlier) => Some(earlier),
        None => if well_formed {
            None
        } else {
            Some(refusal)
        },
    }
}

/// The media directory must be the `media-tmp` sibling of the state database.
pub open spec fn check_media(state_db: Seq<char>, media: Seq<char>) -> Option<RefusalView> {
    if !has_parent(state_db) {
        Some(RefusalView::NoParent)
    } else if path_view(media) != sibling(state_db, "media-tmp"@) {
        Some(RefusalView::NotSibling)
    } else {
        None
    }
}

/// The additional rooms that the environment names.
pub open spec fn more_rooms(env: Environment) -> Seq<Seq<char>> {
    match env.at(Variable::RoomIds) {
        Some(list) => entries(list),
        None => Seq::empty(),
    }
}

/// Every additional room id must be well formed.
pub open spec fn check_rooms(env: Environment) -> Option<RefusalView> {
    match first_malformed(more_rooms(env), 0) {
        Some(entry) => Some(RefusalView::InvalidRoomEntry(entry)),
        None => None,
    }
}

/// The checks in their order. `user_ok` and `sender_ok` say whether the two user ids are well
/// formed.
pub open spec fn checks(env: Environment, user_ok: bool, sender_ok: bool) -> Seq<
    Option<RefusalView>,
> {
    seq![
        if is_on(env, Variable::Enabled) {
            None
        } else {
            Some(RefusalView::Disabled)
        },
        check_set(env, Variable::StateDb),
        check_set(env, Variable::MediaTempPath),
        check_media(env.text(Variable::StateDb), env.text(Variable::MediaTempPath)),
        check_formed(
            env,
            Variable::RoomId,
            valid_room_id(env.text(Variable::RoomId)),
            RefusalView::InvalidRoomId,
        ),
        check_rooms(env),
        check_set(env, Variable::Homeserver),
        check_formed(env, Variable::UserId, user_ok, RefusalView::InvalidUserId),
        check_set(env, Variable::DeviceId),
        check_set(env, Variable::AccessTokenFile),
        check_set(env, Variable::StorePath),
        check_set(env, Variable::StorePassphraseFile),
        check_set(env, Variable::Socket),
        check_command(env, Variable::TranscribeCommand, env.transcriber),
        check_command(env, Variable::TtsCommand, env.synthesizer),
        check_set(env, Variable::TtsVoice),
        check_formed(env, Variable::SenderId, sender_ok, RefusalView::InvalidSenderId),
    ]
}

/// The first refusal at or after position `from`.
pub open spec fn first_refusal(checks: Seq<Option<RefusalView>>, from: int) -> Option<RefusalView>
    decreases checks.len() - from,
{
    if from >= checks.len() {
        None
    } else if checks[from] is Some {
        checks[from]
    } else {
        first_refusal(checks, from + 1)
    }
}

/// The refusal at position `k` is the first when every check before it passed.
proof fn lemma_first_refusal(checks: Seq<Option<RefusalView>>, from: int, k: int)
    requires
        0 <= from <= k < checks.len(),
        checks[k] is Some,
        forall|i: int| from <= i < k ==> (#[trigger] checks[i]) is None,
    ensures
        first_refusal(checks, from) == checks[k],
    decreases k - from,
{
    if from < k {
        lemma_first_refusal(checks, from + 1, k);
    }
}

/// There is no refusal when every check passed.
proof fn lemma_no_refusal(checks: Seq<Option<RefusalView>>, from: int)
    requires
        0 <= from <= checks.len(),
        forall|i: int| from <= i < checks.len() ==> (#[trigger] checks[i]) is None,
    ensures
        first_refusal(checks, from) is None,
    decreases checks.len() - from,
{
    if from < checks.len() {
        lemma_no_refusal(checks, from + 1);
    }
}

/// True for the configuration that an environment without refusal gives.
pub open spec fn is_configured(config: Config, env: Environment) -> bool {
    &&& config.homeserver@ == env.text(Variable::Homeserver)
    &&& config.user_id@ == env.text(Variable::UserId)
    &&& config.device_id@ == env.text(Variable::DeviceId)
    &&& config.access_token_file@ == env.text(Variable::AccessTokenFile)
    &&& config.store_path@ == env.text(Variable::StorePath)
    &&& config.store_passphrase_file@ == env.text(Variable::StorePassphraseFile)
    &&& config.state_db@ == env.text(Variable::StateDb)
    &&& config.socket@ == env.text(Variable::Socket)
    &&& config.media_temp_path@ == env.text(Variable::MediaTempPath)
    &&& config.transcribe_command@ == env.text(Variable::TranscribeCommand)
    &&& config.tts_command@ == env.text(Variable::TtsCommand)
    &&& config.tts_voice@ == env.text(Variable::TtsVoice)
    &&& config.room_id@ == env.text(Variable::RoomId)
    &&& is_room_list(id_texts(config.room_ids@), env.text(Variable::RoomId), more_rooms(env))
    &&& config.sender_id@ == env.text(Variable::SenderId)
    &&& config.require_verified_device == is_on(env, Variable::RequireVerifiedDevice)
    &&& config.allow_cross_signing_repair == is_on(env, Variable::AllowCrossSigningRepair)
}

/// What `Config::from_values` returns.
pub open spec fn is_outcome(
    result: Result<Config, ConfigError>,
    env: Environment,
    user_ok: bool,
    sender_ok: bool,
) -> bool {
    match result {
        Ok(config) => first_refusal(checks(env, user_ok, sender_ok), 0) is None && is_configured(
            config,
            env,
        ),
        Err(error) => first_refusal(checks(env, user_ok, sender_ok), 0) == Some(error@),
    }
}

/// The value of a variable that must be set and not blank.
pub fn required(env: &Environment, variable: Variable) -> (r: Result<String, ConfigError>)
    ensures
        match r {
            Ok(value) => env.at(variable) == Some(value@) && check_set(*env, variable) is None,
            Err(error) => check_set(*env, variable) == Some(error@),
        },
{
    match env.value(variable) {
        Some(value) => if blank_text(value.as_str()) {
            Err(ConfigError::Empty(variable))
        } else {
            Ok(value)
        },
        None => Err(ConfigError::Missing(variable)),
    }
}

/// The value of a variable that must name an executable regular file.
pub fn required_executable(env: &Environment, variable: Variable, found: Option<FileFacts>) -> (r:
    Result<String, ConfigError>)
    ensures
        match r {
            Ok(value) => env.at(variable) == Some(value@) && check_command(*env, variable, found)
                is None,
            Err(error) => check_command(*env, variable, found) == Some(error@),
        },
{
    match required(env, variable) {
        Ok(value) => match found {
            Some(facts) => if facts.is_file && facts.mode & 0o111 != 0 {
                Ok(value)
            } else {
                Err(ConfigError::NotExecutable(variable))
            },
            None => Err(ConfigError::Unreadable(variable)),
        },
        Err(error) => Err(error),
    }
}

fn switched_on(env: &Environment, variable: Variable) -> (r: bool)
    ensures
        r == is_on(*env, variable),
{
    match env.value(variable) {
        Some(value) => same_text(value.as_str(), "1"),
        None => false,
    }
}

fn room_entries(env: &Environment) -> (r: Vec<String>)
    ensures
        id_texts(r@) == more_rooms(*env),
{
    match env.value(Variable::RoomIds) {
        Some(list) => entry_list(list.as_str()),
        None => {
            let none: Vec<String> = Vec::new();
            proof {
                assert(id_texts(none@) =~= Seq::<Seq<char>>::empty());
            }
            none
        },
    }
}

/// The values of the paths of the state database and the media directory, checked.
fn state_paths(env: &Environment, Ghost(all): Ghost<Seq<Option<RefusalView>>>) -> (r: Result<
    (String, String),
    ConfigError,
>)
    requires
        all.len() > 3,
        all[0] is None,
        all[1] == check_set(*env, Variable::StateDb),
        all[2] == check_set(*env, Variable::MediaTempPath),
        all[3] == check_media(env.text(Variable::StateDb), env.text(Variable::MediaTempPath)),
    ensures
        match r {
            Ok((state_db, media)) => env.at(Variable::StateDb) == Some(state_db@) && env.at(
                Variable::MediaTempPath,
            ) == Some(media@) && all[1] is None && all[2] is None && all[3] is None,
            Err(error) => first_refusal(all, 0) == Some(error@),
        },
{
    let state_db = match required(env, Variable::StateDb) {
        Ok(value) => value,
        Err(error) => {
            proof {
                lemma_first_refusal(all, 0, 1);
            }
            return Err(error);
        },
    };
    let media = match required(env, Variable::MediaTempPath) {
        Ok(value) => value,
        Err(error) => {
            proof {
                lemma_first_refusal(all, 0, 2);
            }
            return Err(error);
        },
    };
    match is_sibling(state_db.as_str(), media.as_str(), "media-tmp") {
        Some(true) => Ok((state_db, media)),
        Some(false) => {
            proof {
                lemma_first_refusal(all, 0, 3);
            }
            Err(ConfigError::NotSibling)
        },
        None => {
            proof {
                lemma_first_refusal(all, 0, 3);
            }
            Err(ConfigError::NoParent)
        },
    }
}

impl Config {
    /// The configuration that an environment gives, or the first refusal. `user_ok` and
    /// `sender_ok` say whether the two user ids are well formed.
    pub fn from_values(env: &Environment, user_ok: bool, sender_ok: bool) -> (r: Result<
        Config,
        ConfigError,
    >)
        ensures
            is_outcome(r, *env, user_ok, sender_ok),
    {
        let ghost all = checks(*env, user_ok, sender_ok);
        if !switched_on(env, Variable::Enabled) {
            proof {
                lemma_first_refusal(all, 0, 0);
            }
            return Err(ConfigError::Disabled);
        }
        let (state_db, media_temp_path) = match state_paths(env, Ghost(all)) {
            Ok(paths) => paths,
            Err(error) => return Err(error),
        };
        let room_id = match required(env, Variable::RoomId) {
            Ok(value) => value,
            Err(error) => {
                proof {
                    lemma_first_refusal(all, 0, 4);
                }
                return Err(error);
            },
        };
        if !is_room_id(room_id.as_str()) {
            proof {
                lemma_first_refusal(all, 0, 4);
            }
            return Err(ConfigError::InvalidRoomId);
        }
        let more = room_entries(env);
        if let Some(entry) = malformed_entry(&more) {
            proof {
                lemma_first_refusal(all, 0, 5);
            }
            return Err(ConfigError::InvalidRoomEntry(entry));
        }
        let room_ids = room_list(room_id.as_str(), &more);
        let homeserver = match required(env, Variable::Homeserver) {
            Ok(value) => value,
            Err(error) => {
                proof {
                    lemma_first_refusal(all, 0, 6);
                }
                return Err(error);
            },
        };
        let user_id = match required(env, Variable::UserId) {
            Ok(value) => value,
            Err(error) => {
                proof {
                    lemma_first_refusal(all, 0, 7);
                }
                return Err(error);
            },
        };
        if !user_ok {
            proof {
                lemma_first_refusal(all, 0, 7);
            }
            return Err(ConfigError::InvalidUserId);
        }
        let device_id = match required(env, Variable::DeviceId) {
            Ok(value) => value,
            Err(error) => {
                proof {
                    lemma_first_refusal(all, 0, 8);
                }
                return Err(error);
            },
        };
        let access_token_file = match required(env, Variable::AccessTokenFile) {
            Ok(value) => value,
            Err(error) => {
                proof {
                    lemma_first_refusal(all, 0, 9);
                }
                return Err(error);
            },
        };
        let store_path = match required(env, Variable::StorePath) {
            Ok(value) => value,
            Err(error) => {
                proof {
                    lemma_first_refusal(all, 0, 10);
                }
                return Err(error);
            },
        };
        let store_passphrase_file = match required(env, Variable::StorePassphraseFile) {
            Ok(value) => value,
            Err(error) => {
                proof {
                    lemma_first_refusal(all, 0, 11);
                }
                return Err(error);
            },
        };
        let socket = match required(env, Variable::Socket) {
            Ok(value) => value,
            Err(error) => {
                proof {
                    lemma_first_refusal(all, 0, 12);
                }
                return Err(error);
            },
        };
        let transcribe_command = match required_executable(
            env,
            Variable::TranscribeCommand,
            env.transcriber,
        ) {
            Ok(value) => value,
            Err(error) => {
                proof {
                    lemma_first_refusal(all, 0, 13);
                }
                return Err(error);
            },
        };
        let tts_command = match required_executable(env, Variable::TtsCommand, env.synthesizer) {
            Ok(value) => value,
            Err(error) => {
                proof {
                    lemma_first_refusal(all, 0, 14);
                }
                return Err(error);
            },
        };
        let tts_voice = match required(env, Variable::TtsVoice) {
            Ok(value) => value,
            Err(error) => {
                proof {
                    lemma_first_refusal(all, 0, 15);
                }
                return Err(error);
            },
        };
        let sender_id = match required(env, Variable::SenderId) {
            Ok(value) => value,
            Err(error) => {
                proof {
                    lemma_first_refusal(all, 0, 16);
                }
                return Err(error);
            },
        };
        if !sender_ok {
            proof {
                lemma_first_refusal(all, 0, 16);
            }
            return Err(ConfigError::InvalidSenderId);
        }
        proof {
            lemma_no_refusal(all, 0);
        }
        Ok(
            Config {
                homeserver,
                user_id,
                device_id,
                access_token_file,
                store_path,
                store_passphrase_file,
                state_db,
                socket,
                media_temp_path,
                transcribe_command,
                tts_command,
                tts_voice,
                room_id,
                room_ids,
                sender_id,
                require_verified_device: switched_on(env, Variable::RequireVerifiedDevice),
                allow_cross_signing_repair: switched_on(env, Variable::AllowCrossSigningRepair),
            },
        )
    }

    /// The configuration that an environment gives, or the first refusal.
    pub fn from_env(env: &Environment) -> (r: Result<Config, ConfigError>)
        ensures
            is_outcome(
                r,
                *env,
                valid_user_id(env.text(Variable::UserId)),
                valid_user_id(env.text(Variable::SenderId)),
            ),
    {
        let user_ok = match env.value(Variable::UserId) {
            Some(id) => is_user_id(id.as_str()),
            None => false,
        };
        let sender_ok = match env.value(Variable::SenderId) {
            Some(id) => is_user_id(id.as_str()),
            None => false,
        };
        Config::from_values(env, user_ok, sender_ok)
    }
}

// ---------------------------------------------------------------------------
// What holds of every configuration
// ---------------------------------------------------------------------------

/// The transport is off unless it is switched on: whatever else the environment says, it is
/// refused.
pub proof fn law_default_is_off(env: Environment, user_ok: bool, sender_ok: bool)
    requires
        !is_on(env, Variable::Enabled),
    ensures
        first_refusal(checks(env, user_ok, sender_ok), 0) == Some(RefusalView::Disabled),
{
}

proof fn lemma_all_passed(checks: Seq<Option<RefusalView>>, from: int, i: int)
    requires
        0 <= from <= i < checks.len(),
        first_refusal(checks, from) is None,
    ensures
        checks[i] is None,
    decreases i - from,
{
    if from < i {
        lemma_all_passed(checks, from + 1, i);
    }
}

proof fn lemma_all_formed(ids: Seq<Seq<char>>, from: int, i: int)
    requires
        0 <= from <= i < ids.len(),
        first_malformed(ids, from) is None,
    ensures
        valid_room_id(ids[i]),
    decreases i - from,
{
    if from < i {
        lemma_all_formed(ids, from + 1, i);
    }
}

/// The default room is among the allowed rooms, which are all well formed and listed once.
pub proof fn law_allowed_rooms_are_well_formed(
    config: Config,
    env: Environment,
    user_ok: bool,
    sender_ok: bool,
)
    requires
        is_outcome(Ok(config), env, user_ok, sender_ok),
    ensures
        id_texts(config.room_ids@).contains(config.room_id@),
        ascending(id_texts(config.room_ids@)),
        forall|i: int|
            0 <= i < config.room_ids@.len() ==> valid_room_id((#[trigger] config.room_ids@[i])@),
{
    let all = checks(env, user_ok, sender_ok);
    lemma_all_passed(all, 0, 4);
    lemma_all_passed(all, 0, 5);
    let list = id_texts(config.room_ids@);
    let more = more_rooms(env);
    assert(list.contains(config.room_id@));
    assert forall|i: int| 0 <= i < config.room_ids@.len() implies valid_room_id(
        (#[trigger] config.room_ids@[i])@,
    ) by {
        assert(list[i] == config.room_ids@[i]@);
        assert(list.contains(list[i]));
        if list[i] != config.room_id@ {
            let k = choose|k: int| 0 <= k < more.len() && more[k] == list[i];
            lemma_all_formed(more, 0, k);
        }
    }
}

/// There is one list of the allowed rooms.
pub proof fn law_room_list_is_unique(
    first: Seq<Seq<char>>,
    second: Seq<Seq<char>>,
    room_id: Seq<char>,
    more: Seq<Seq<char>>,
)
    requires
        is_room_list(first, room_id, more),
        is_room_list(second, room_id, more),
    ensures
        first == second,
{
    assert forall|id: Seq<char>| #![trigger first.contains(id)] first.contains(id)
        <==> second.contains(id) by {
        assert(second.contains(id) <==> id == room_id || more.contains(id));
    }
    lemma_ascending_once(first, second);
}

/// In an accepted configuration every required variable is set and not blank, both commands are
/// executable regular files, and the media directory is the sibling of the state database.
pub proof fn law_accepted_configuration_is_complete(
    config: Config,
    env: Environment,
    user_ok: bool,
    sender_ok: bool,
)
    requires
        is_outcome(Ok(config), env, user_ok, sender_ok),
    ensures
        user_ok && sender_ok,
        is_on(env, Variable::Enabled),
        forall|variable: Variable|
            #![trigger check_set(env, variable)]
            variable != Variable::RoomIds && variable != Variable::RequireVerifiedDevice && variable
                != Variable::AllowCrossSigningRepair && variable != Variable::Enabled ==> check_set(
                env,
                variable,
            ) is None,
        env.transcriber is Some && is_executable(env.transcriber->0),
        env.synthesizer is Some && is_executable(env.synthesizer->0),
        has_parent(config.state_db@),
        path_view(config.media_temp_path@) == sibling(config.state_db@, "media-tmp"@),
{
    let all = checks(env, user_ok, sender_ok);
    assert forall|i: int| 0 <= i < all.len() implies (#[trigger] all[i]) is None by {
        lemma_all_passed(all, 0, i);
    }
    assert(all[0] is None && all[1] is None && all[2] is None && all[3] is None && all[4] is None
        && all[6] is None && all[7] is None && all[8] is None && all[9] is None && all[10] is None
        && all[11] is None && all[12] is None && all[13] is None && all[14] is None && all[15]
        is None && all[16] is None);
}

} // verus!
