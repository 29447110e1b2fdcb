use vstd::prelude::*;

verus! {

/// Errors raised by the administrative command surface.
#[derive(Debug, Clone, Copy, PartialEq, Eq, Structural)]
pub enum CommandError {
    GuildOnly,
}

/// Configuration errors: a row that the relay expected to find is missing or
/// not linked the way the schema promises.
#[derive(Debug)]
pub enum DatabaseModelError {
    MessageNotBelongToChannel(u64),
    ChannelNotBelongToGroup(u64),
    GroupNotBelongToGuild(String),
}

/// The relay's error taxonomy. Provider and platform failures are kept by the
/// unverified shell; what reaches the library is reported through these.
#[derive(Debug)]
pub enum RelayError {
    /// A language tag that the translation provider does not recognize.
    UnsupportedLanguage,
    /// No recorded mirror exists for a referenced origin artifact.
    MirrorNotFound,
    /// A guild was registered twice.
    AlreadyExists,
    /// A translation group name is already taken.
    DuplicateName,
    /// A channel was enrolled into a group that does not exist.
    UnknownGroup,
    /// A group was created under a guild that is not registered.
    UnknownGuild,
    /// A store write would violate a key constraint.
    Persistence,
    DatabaseModel(DatabaseModelError),
    Command(CommandError),
    Unexpected,
}

} // verus!
