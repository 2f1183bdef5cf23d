//! What each setting comes from, and what is refused.

use vstd::prelude::*;

use crate::config::{
    check_command, check_formed, check_media, check_rooms, check_set, checks, entries,
    first_malformed, first_refusal, is_executable, is_outcome, is_room_list,
    law_accepted_configuration_is_complete, lookup, more_rooms, trimmed_pieces, variable_name,
    Config, ConfigError, Environment, FileFacts, RefusalView, Variable,
};
use crate::ids::valid_room_id;
use crate::paths::{has_parent, path_view, sibling};
use crate::text::{id_texts, precedes, split, trim};
use crate::text_laws::{
    has_ink, law_blank_means_all_white, law_separators_separate, law_unseparated_text_is_one_piece,
};

verus! {

// ---------------------------------------------------------------------------
// Variables
// ---------------------------------------------------------------------------

/// Each variable has its name.
pub proof fn law_variables_have_their_names()
    ensures
        variable_name(Variable::Enabled) == "MATRIX_AGENT_ENABLED"@,
        variable_name(Variable::Homeserver) == "MATRIX_AGENT_HOMESERVER"@,
        variable_name(Variable::UserId) == "MATRIX_AGENT_USER_ID"@,
        variable_name(Variable::DeviceId) == "MATRIX_AGENT_DEVICE_ID"@,
        variable_name(Variable::AccessTokenFile) == "MATRIX_AGENT_ACCESS_TOKEN_FILE"@,
        variable_name(Variable::StorePath) == "MATRIX_AGENT_STORE_PATH"@,
        variable_name(Variable::StorePassphraseFile) == "MATRIX_AGENT_STORE_PASSPHRASE_FILE"@,
        variable_name(Variable::StateDb) == "MATRIX_AGENT_STATE_DB"@,
        variable_name(Variable::Socket) == "MATRIX_AGENT_SOCKET"@,
        variable_name(Variable::MediaTempPath) == "MATRIX_AGENT_MEDIA_TEMP_PATH"@,
        variable_name(Variable::TranscribeCommand) == "MATRIX_AGENT_TRANSCRIBE_COMMAND"@,
        variable_name(Variable::TtsCommand) == "MATRIX_AGENT_TTS_COMMAND"@,
        variable_name(Variable::TtsVoice) == "MATRIX_AGENT_TTS_VOICE"@,
        variable_name(Variable::RoomId) == "MATRIX_AGENT_ROOM_ID"@,
        variable_name(Variable::RoomIds) == "MATRIX_AGENT_ROOM_IDS"@,
        variable_name(Variable::SenderId) == "MATRIX_AGENT_SENDER_ID"@,
        variable_name(Variable::RequireVerifiedDevice) == "MATRIX_AGENT_REQUIRE_VERIFIED_DEVICE"@,
        variable_name(Variable::AllowCrossSigningRepair)
            == "MATRIX_AGENT_ALLOW_CROSS_SIGNING_REPAIR"@,
{
}

/// True when the first variable of this name stands at position `i`, with this value.
pub open spec fn says_at(env: Environment, name: Seq<char>, value: Seq<char>, i: int) -> bool {
    &&& 0 <= i < env.values@.len()
    &&& env.values@[i].0@ == name
    &&& env.values@[i].1@ == value
    &&& forall|j: int| 0 <= j < i ==> (#[trigger] env.values@[j]).0@ != name
}

proof fn lemma_lookup(env: Environment, name: Seq<char>, from: int)
    requires
        0 <= from <= env.values@.len(),
        forall|j: int| 0 <= j < from ==> (#[trigger] env.values@[j]).0@ != name,
    ensures
        lookup(env.values@, name, from) is Some ==> exists|i: int| #[trigger]
            says_at(env, name, lookup(env.values@, name, from)->0, i),
        lookup(env.values@, name, from) is None ==> forall|j: int|
            0 <= j < env.values@.len() ==> (#[trigger] env.values@[j]).0@ != name,
    decreases env.values@.len() - from,
{
    if from < env.values@.len() {
        if env.values@[from].0@ == name {
            assert(lookup(env.values@, name, from) == Some(env.values@[from].1@));
            assert(says_at(env, name, lookup(env.values@, name, from)->0, from));
        } else {
            lemma_lookup(env, name, from + 1);
            let found = lookup(env.values@, name, from + 1);
            assert(lookup(env.values@, name, from) == found);
            if found is Some {
                let i = choose|i: int| #[trigger] says_at(env, name, found->0, i);
                assert(says_at(env, name, lookup(env.values@, name, from)->0, i));
            }
        }
    }
}

/// A variable has the value that stands first under its name, unaltered; without its name it has
/// none.
pub proof fn law_variables_have_their_first_value(
    env: Environment,
    variable: Variable,
    value: Seq<char>,
)
    ensures
        env.at(variable) == Some(value) <==> exists|i: int| #[trigger]
            says_at(env, variable_name(variable), value, i),
        env.at(variable) is None <==> forall|j: int|
            0 <= j < env.values@.len() ==> (#[trigger] env.values@[j]).0@ != variable_name(variable),
        env.at(variable) == Some(value) ==> env.text(variable) == value,
{
    let name = variable_name(variable);
    lemma_lookup(env, name, 0);
    if exists|i: int| #[trigger] says_at(env, name, value, i) {
        let i = choose|i: int| #[trigger] says_at(env, name, value, i);
        match env.at(variable) {
            Some(found) => {
                let k = choose|k: int| #[trigger] says_at(env, name, found, k);
                if k < i {
                    assert(env.values@[k].0@ != name);
                } else if i < k {
                    assert(env.values@[i].0@ != name);
                }
            },
            None => {
                assert(env.values@[i].0@ != name);
            },
        }
    }
}

// ---------------------------------------------------------------------------
// Room lists
// ---------------------------------------------------------------------------

proof fn lemma_trimmed_pieces_add(a: Seq<Seq<char>>, b: Seq<Seq<char>>)
    ensures
        trimmed_pieces(a + b) == trimmed_pieces(a) + trimmed_pieces(b),
    decreases b.len(),
{
    if b.len() == 0 {
        assert(a + b =~= a);
        assert(trimmed_pieces(a) + trimmed_pieces(b) =~= trimmed_pieces(a));
    } else {
        lemma_trimmed_pieces_add(a, b.drop_last());
        assert((a + b).drop_last() =~= a + b.drop_last());
        assert((a + b).last() == b.last());
        assert(trimmed_pieces(a + b) =~= trimmed_pieces(a) + trimmed_pieces(b));
    }
}

/// Commas separate the entries of a list. An entry is trimmed; a blank one is none.
pub proof fn law_commas_separate_entries(a: Seq<char>, b: Seq<char>)
    ensures
        entries(a + seq![','] + b) == entries(a) + entries(b),
        !a.contains(',') ==> entries(a) == if has_ink(a) {
            seq![trim(a)]
        } else {
            Seq::empty()
        },
{
    law_separators_separate(a, ',', b);
    lemma_trimmed_pieces_add(split(a, ','), split(b, ','));
    if !a.contains(',') {
        law_unseparated_text_is_one_piece(a, ',');
        law_blank_means_all_white(a);
        let none: Seq<Seq<char>> = Seq::empty();
        assert(seq![a].drop_last() =~= none);
        assert(trimmed_pieces(none) =~= none);
        assert(none.push(trim(a)) =~= seq![trim(a)]);
    }
}

/// Without a list there are no further rooms; with one they are its entries.
pub proof fn law_further_rooms_are_those_listed(env: Environment)
    ensures
        env.at(Variable::RoomIds) is None ==> more_rooms(env).len() == 0,
        env.at(Variable::RoomIds) matches Some(list) ==> more_rooms(env) == entries(list),
{
}

proof fn lemma_first_malformed(ids: Seq<Seq<char>>, from: int)
    requires
        0 <= from,
    ensures
        match first_malformed(ids, from) {
            Some(entry) => exists|i: int|
                from <= i < ids.len() && #[trigger] ids[i] == entry && !valid_room_id(entry)
                    && forall|j: int| from <= j < i ==> valid_room_id(#[trigger] ids[j]),
            None => forall|j: int| from <= j < ids.len() ==> valid_room_id(#[trigger] ids[j]),
        },
    decreases ids.len() - from,
{
    if from < ids.len() {
        if valid_room_id(ids[from]) {
            lemma_first_malformed(ids, from + 1);
        } else {
            assert(ids[from] == ids[from]);
        }
    }
}

/// Where an entry is refused it is the first that is no room id; where none is refused all are
/// room ids.
pub proof fn law_first_malformed_room_is_named(ids: Seq<Seq<char>>)
    ensures
        first_malformed(ids, 0) is None <==> forall|j: int|
            0 <= j < ids.len() ==> valid_room_id(#[trigger] ids[j]),
        first_malformed(ids, 0) matches Some(entry) ==> exists|i: int|
            0 <= i < ids.len() && #[trigger] ids[i] == entry && !valid_room_id(entry) && forall|j: int|
                0 <= j < i ==> valid_room_id(#[trigger] ids[j]),
{
    lemma_first_malformed(ids, 0);
}

/// The list of rooms holds the default room and the further ones, each once and in order.
pub proof fn law_room_list_holds_all_rooms(
    list: Seq<Seq<char>>,
    room_id: Seq<char>,
    more: Seq<Seq<char>>,
)
    requires
        is_room_list(list, room_id, more),
    ensures
        list.contains(room_id),
        forall|i: int| 0 <= i < more.len() ==> list.contains(#[trigger] more[i]),
        forall|i: int|
            0 <= i < list.len() ==> #[trigger] list[i] == room_id || more.contains(list[i]),
        forall|i: int, j: int|
            0 <= i < j < list.len() ==> precedes(#[trigger] list[i], #[trigger] list[j]),
{
    assert forall|i: int| 0 <= i < more.len() implies list.contains(#[trigger] more[i]) by {
        assert(more.contains(more[i]));
    }
    assert forall|i: int| 0 <= i < list.len() implies #[trigger] list[i] == room_id || more.contains(
        list[i],
    ) by {
        assert(list.contains(list[i]));
    }
}

// ---------------------------------------------------------------------------
// Settings
// ---------------------------------------------------------------------------

/// A file is executable when it is regular and its owner, its group or others may execute it.
pub proof fn law_executables_may_be_executed(facts: FileFacts)
    ensures
        is_executable(facts) <==> facts.is_file && (facts.mode & 64 != 0 || facts.mode & 8 != 0
            || facts.mode & 1 != 0),
{
    let mode = facts.mode;
    assert(mode & 0o111 != 0 <==> mode & 64 != 0 || mode & 8 != 0 || mode & 1 != 0) by (bit_vector);
}

/// Every setting is the value of its variable, unaltered; a switch is on when its variable says
/// `1`.
pub proof fn law_settings_are_taken_as_they_are(
    config: Config,
    env: Environment,
    user_ok: bool,
    sender_ok: bool,
)
    requires
        is_outcome(Ok(config), env, user_ok, sender_ok),
    ensures
        env.at(Variable::Homeserver) == Some(config.homeserver@),
        env.at(Variable::UserId) == Some(config.user_id@),
        env.at(Variable::DeviceId) == Some(config.device_id@),
        env.at(Variable::AccessTokenFile) == Some(config.access_token_file@),
        env.at(Variable::StorePath) == Some(config.store_path@),
        env.at(Variable::StorePassphraseFile) == Some(config.store_passphrase_file@),
        env.at(Variable::StateDb) == Some(config.state_db@),
        env.at(Variable::Socket) == Some(config.socket@),
        env.at(Variable::MediaTempPath) == Some(config.media_temp_path@),
        env.at(Variable::TranscribeCommand) == Some(config.transcribe_command@),
        env.at(Variable::TtsCommand) == Some(config.tts_command@),
        env.at(Variable::TtsVoice) == Some(config.tts_voice@),
        env.at(Variable::RoomId) == Some(config.room_id@),
        env.at(Variable::SenderId) == Some(config.sender_id@),
        is_room_list(id_texts(config.room_ids@), config.room_id@, more_rooms(env)),
        config.require_verified_device <==> env.at(Variable::RequireVerifiedDevice) == Some("1"@),
        config.allow_cross_signing_repair <==> env.at(Variable::AllowCrossSigningRepair) == Some(
            "1"@,
        ),
{
    law_accepted_configuration_is_complete(config, env, user_ok, sender_ok);
    assert(check_set(env, Variable::Homeserver) is None);
    assert(check_set(env, Variable::UserId) is None);
    assert(check_set(env, Variable::DeviceId) is None);
    assert(check_set(env, Variable::AccessTokenFile) is None);
    assert(check_set(env, Variable::StorePath) is None);
    assert(check_set(env, Variable::StorePassphraseFile) is None);
    assert(check_set(env, Variable::StateDb) is None);
    assert(check_set(env, Variable::Socket) is None);
    assert(check_set(env, Variable::MediaTempPath) is None);
    assert(check_set(env, Variable::TranscribeCommand) is None);
    assert(check_set(env, Variable::TtsCommand) is None);
    assert(check_set(env, Variable::TtsVoice) is None);
    assert(check_set(env, Variable::RoomId) is None);
    assert(check_set(env, Variable::SenderId) is None);
}

// ---------------------------------------------------------------------------
// Refusals
// ---------------------------------------------------------------------------

/// True when a variable says something.
pub open spec fn is_filled(env: Environment, variable: Variable) -> bool {
    env.at(variable) is Some && has_ink(env.at(variable)->0)
}

/// The refusal for a variable that says nothing.
pub open spec fn unfilled(env: Environment, variable: Variable) -> RefusalView {
    if env.at(variable) is None {
        RefusalView::Missing(variable)
    } else {
        RefusalView::Empty(variable)
    }
}

proof fn lemma_check_set(env: Environment, variable: Variable)
    ensures
        check_set(env, variable) == if is_filled(env, variable) {
            None
        } else {
            Some(unfilled(env, variable))
        },
{
    if let Some(value) = env.at(variable) {
        law_blank_means_all_white(value);
    }
}

/// True when two paths are the state database and the media directory beside it.
pub open spec fn are_beside(state_db: Seq<char>, media: Seq<char>) -> bool {
    path_view(media) == sibling(state_db, "media-tmp"@)
}

/// True when a command was found and may be executed.
pub open spec fn is_command(found: Option<FileFacts>) -> bool {
    found is Some && is_executable(found->0)
}

/// True when all is well with the places: the transport is on, database and media directory stand
/// side by side, and the rooms are well formed.
pub open spec fn places_are_well(env: Environment) -> bool {
    &&& env.at(Variable::Enabled) == Some("1"@)
    &&& is_filled(env, Variable::StateDb)
    &&& is_filled(env, Variable::MediaTempPath)
    &&& has_parent(env.text(Variable::StateDb))
    &&& are_beside(env.text(Variable::StateDb), env.text(Variable::MediaTempPath))
    &&& is_filled(env, Variable::RoomId)
    &&& valid_room_id(env.text(Variable::RoomId))
    &&& forall|j: int|
        0 <= j < more_rooms(env).len() ==> valid_room_id(#[trigger] more_rooms(env)[j])
}

/// True when all is well with the account.
pub open spec fn account_is_well(env: Environment, user_ok: bool) -> bool {
    &&& is_filled(env, Variable::Homeserver)
    &&& is_filled(env, Variable::UserId)
    &&& user_ok
    &&& is_filled(env, Variable::DeviceId)
    &&& is_filled(env, Variable::AccessTokenFile)
    &&& is_filled(env, Variable::StorePath)
    &&& is_filled(env, Variable::StorePassphraseFile)
    &&& is_filled(env, Variable::Socket)
}

/// True when all is well with the commands and the sender.
pub open spec fn commands_are_well(env: Environment, sender_ok: bool) -> bool {
    &&& is_filled(env, Variable::TranscribeCommand)
    &&& is_command(env.transcriber)
    &&& is_filled(env, Variable::TtsCommand)
    &&& is_command(env.synthesizer)
    &&& is_filled(env, Variable::TtsVoice)
    &&& is_filled(env, Variable::SenderId)
    &&& sender_ok
}

proof fn lemma_passed(all: Seq<Option<RefusalView>>, from: int, to: int)
    requires
        0 <= from <= to <= all.len(),
        forall|i: int| from <= i < to ==> (#[trigger] all[i]) is None,
    ensures
        first_refusal(all, from) == first_refusal(all, to),
    decreases to - from,
{
    if from < to {
        lemma_passed(all, from + 1, to);
    }
}

proof fn lemma_checks(env: Environment, user_ok: bool, sender_ok: bool)
    ensures
        ({
            let all = checks(env, user_ok, sender_ok);
            &&& all.len() == 17
            &&& all[0] == (if env.at(Variable::Enabled) == Some("1"@) {
                None::<RefusalView>
            } else {
                Some(RefusalView::Disabled)
            })
            &&& all[1] == check_set(env, Variable::StateDb)
            &&& all[2] == check_set(env, Variable::MediaTempPath)
            &&& all[3] == check_media(env.text(Variable::StateDb), env.text(Variable::MediaTempPath))
            &&& all[4] == check_formed(
                env,
                Variable::RoomId,
                valid_room_id(env.text(Variable::RoomId)),
                RefusalView::InvalidRoomId,
            )
            &&& all[5] == check_rooms(env)
            &&& all[6] == check_set(env, Variable::Homeserver)
            &&& all[7] == check_formed(env, Variable::UserId, user_ok, RefusalView::InvalidUserId)
            &&& all[8] == check_set(env, Variable::DeviceId)
            &&& all[9] == check_set(env, Variable::AccessTokenFile)
            &&& all[10] == check_set(env, Variable::StorePath)
            &&& all[11] == check_set(env, Variable::StorePassphraseFile)
            &&& all[12] == check_set(env, Variable::Socket)
            &&& all[13] == check_command(env, Variable::TranscribeCommand, env.transcriber)
            &&& all[14] == check_command(env, Variable::TtsCommand, env.synthesizer)
            &&& all[15] == check_set(env, Variable::TtsVoice)
            &&& all[16] == check_formed(
                env,
                Variable::SenderId,
                sender_ok,
                RefusalView::InvalidSenderId,
            )
        }),
{
}

/// The places are looked at first, and in this order. The first that is not well is the refusal.
pub proof fn law_places_are_checked_first(env: Environment, user_ok: bool, sender_ok: bool)
    requires
        !places_are_well(env),
    ensures
        first_refusal(checks(env, user_ok, sender_ok), 0) == Some(
            if env.at(Variable::Enabled) != Some("1"@) {
                RefusalView::Disabled
            } else if !is_filled(env, Variable::StateDb) {
                unfilled(env, Variable::StateDb)
            } else if !is_filled(env, Variable::MediaTempPath) {
                unfilled(env, Variable::MediaTempPath)
            } else if !has_parent(env.text(Variable::StateDb)) {
                RefusalView::NoParent
            } else if !are_beside(env.text(Variable::StateDb), env.text(Variable::MediaTempPath)) {
                RefusalView::NotSibling
            } else if !is_filled(env, Variable::RoomId) {
                unfilled(env, Variable::RoomId)
            } else if !valid_room_id(env.text(Variable::RoomId)) {
                RefusalView::InvalidRoomId
            } else {
                RefusalView::InvalidRoomEntry(first_malformed(more_rooms(env), 0)->0)
            },
        ),
{
    let all = checks(env, user_ok, sender_ok);
    lemma_checks(env, user_ok, sender_ok);
    lemma_check_set(env, Variable::StateDb);
    lemma_check_set(env, Variable::MediaTempPath);
    lemma_check_set(env, Variable::RoomId);
    law_first_malformed_room_is_named(more_rooms(env));
    reveal_with_fuel(first_refusal, 7);
}

/// The account comes next, in this order.
pub proof fn law_account_is_checked_second(env: Environment, user_ok: bool, sender_ok: bool)
    requires
        places_are_well(env),
        !account_is_well(env, user_ok),
    ensures
        first_refusal(checks(env, user_ok, sender_ok), 0) == Some(
            if !is_filled(env, Variable::Homeserver) {
                unfilled(env, Variable::Homeserver)
            } else if !is_filled(env, Variable::UserId) {
                unfilled(env, Variable::UserId)
            } else if !user_ok {
                RefusalView::InvalidUserId
            } else if !is_filled(env, Variable::DeviceId) {
                unfilled(env, Variable::DeviceId)
            } else if !is_filled(env, Variable::AccessTokenFile) {
                unfilled(env, Variable::AccessTokenFile)
            } else if !is_filled(env, Variable::StorePath) {
                unfilled(env, Variable::StorePath)
            } else if !is_filled(env, Variable::StorePassphraseFile) {
                unfilled(env, Variable::StorePassphraseFile)
            } else {
                unfilled(env, Variable::Socket)
            },
        ),
{
    let all = checks(env, user_ok, sender_ok);
    lemma_checks(env, user_ok, sender_ok);
    lemma_places_pass(env, user_ok, sender_ok);
    lemma_check_set(env, Variable::Homeserver);
    lemma_check_set(env, Variable::UserId);
    lemma_check_set(env, Variable::DeviceId);
    lemma_check_set(env, Variable::AccessTokenFile);
    lemma_check_set(env, Variable::StorePath);
    lemma_check_set(env, Variable::StorePassphraseFile);
    lemma_check_set(env, Variable::Socket);
    lemma_passed(all, 0, 6);
    reveal_with_fuel(first_refusal, 8);
}

proof fn lemma_places_pass(env: Environment, user_ok: bool, sender_ok: bool)
    requires
        places_are_well(env),
    ensures
        forall|i: int| 0 <= i < 6 ==> (#[trigger] checks(env, user_ok, sender_ok)[i]) is None,
{
    lemma_checks(env, user_ok, sender_ok);
    lemma_check_set(env, Variable::StateDb);
    lemma_check_set(env, Variable::MediaTempPath);
    lemma_check_set(env, Variable::RoomId);
    law_first_malformed_room_is_named(more_rooms(env));
}

proof fn lemma_account_passes(env: Environment, user_ok: bool, sender_ok: bool)
    requires
        account_is_well(env, user_ok),
    ensures
        forall|i: int| 6 <= i < 13 ==> (#[trigger] checks(env, user_ok, sender_ok)[i]) is None,
{
    lemma_checks(env, user_ok, sender_ok);
    lemma_check_set(env, Variable::Homeserver);
    lemma_check_set(env, Variable::UserId);
    lemma_check_set(env, Variable::DeviceId);
    lemma_check_set(env, Variable::AccessTokenFile);
    lemma_check_set(env, Variable::StorePath);
    lemma_check_set(env, Variable::StorePassphraseFile);
    lemma_check_set(env, Variable::Socket);
}

/// The commands and the sender come last, in this order.
pub proof fn law_commands_are_checked_last(env: Environment, user_ok: bool, sender_ok: bool)
    requires
        places_are_well(env),
        account_is_well(env, user_ok),
        !commands_are_well(env, sender_ok),
    ensures
        first_refusal(checks(env, user_ok, sender_ok), 0) == Some(
            if !is_filled(env, Variable::TranscribeCommand) {
                unfilled(env, Variable::TranscribeCommand)
            } else if env.transcriber is None {
                RefusalView::Unreadable(Variable::TranscribeCommand)
            } else if !is_executable(env.transcriber->0) {
                RefusalView::NotExecutable(Variable::TranscribeCommand)
            } else if !is_filled(env, Variable::TtsCommand) {
                unfilled(env, Variable::TtsCommand)
            } else if env.synthesizer is None {
                RefusalView::Unreadable(Variable::TtsCommand)
            } else if !is_executable(env.synthesizer->0) {
                RefusalView::NotExecutable(Variable::TtsCommand)
            } else if !is_filled(env, Variable::TtsVoice) {
                unfilled(env, Variable::TtsVoice)
            } else if !is_filled(env, Variable::SenderId) {
                unfilled(env, Variable::SenderId)
            } else {
                RefusalView::InvalidSenderId
            },
        ),
{
    let all = checks(env, user_ok, sender_ok);
    lemma_checks(env, user_ok, sender_ok);
    lemma_places_pass(env, user_ok, sender_ok);
    lemma_account_passes(env, user_ok, sender_ok);
    lemma_check_set(env, Variable::TranscribeCommand);
    lemma_check_set(env, Variable::TtsCommand);
    lemma_check_set(env, Variable::TtsVoice);
    lemma_check_set(env, Variable::SenderId);
    lemma_passed(all, 0, 13);
    reveal_with_fuel(first_refusal, 5);
}

/// An environment with which all is well is accepted, and no other.
pub proof fn law_good_environments_are_accepted(
    result: Result<Config, ConfigError>,
    env: Environment,
    user_ok: bool,
    sender_ok: bool,
)
    requires
        is_outcome(result, env, user_ok, sender_ok),
    ensures
        result is Ok <==> places_are_well(env) && account_is_well(env, user_ok)
            && commands_are_well(env, sender_ok),
{
    let all = checks(env, user_ok, sender_ok);
    if !places_are_well(env) {
        law_places_are_checked_first(env, user_ok, sender_ok);
    } else if !account_is_well(env, user_ok) {
        law_account_is_checked_second(env, user_ok, sender_ok);
    } else if !commands_are_well(env, sender_ok) {
        law_commands_are_checked_last(env, user_ok, sender_ok);
    } else {
        lemma_checks(env, user_ok, sender_ok);
        lemma_places_pass(env, user_ok, sender_ok);
        lemma_account_passes(env, user_ok, sender_ok);
        lemma_check_set(env, Variable::TranscribeCommand);
        lemma_check_set(env, Variable::TtsCommand);
        lemma_check_set(env, Variable::TtsVoice);
        lemma_check_set(env, Variable::SenderId);
        lemma_passed(all, 0, 17);
    }
}

/// A refusal says just what was refused.
pub proof fn law_refusals_say_what_was_refused(error: ConfigError)
    ensures
        error matches ConfigError::Missing(variable) ==> error@ == RefusalView::Missing(variable),
        error matches ConfigError::Empty(variable) ==> error@ == RefusalView::Empty(variable),
        error matches ConfigError::Unreadable(variable) ==> error@ == RefusalView::Unreadable(
            variable,
        ),
        error matches ConfigError::NotExecutable(variable) ==> error@ == RefusalView::NotExecutable(
            variable,
        ),
        error matches ConfigError::InvalidRoomEntry(entry) ==> error@
            == RefusalView::InvalidRoomEntry(entry@),
        error is Disabled <==> error@ is Disabled,
        error is NoParent <==> error@ is NoParent,
        error is NotSibling <==> error@ is NotSibling,
        error is InvalidRoomId <==> error@ is InvalidRoomId,
        error is InvalidUserId <==> error@ is InvalidUserId,
        error is InvalidSenderId <==> error@ is InvalidSenderId,
{
}

} // verus!
