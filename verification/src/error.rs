//! Why a request, a record or a configuration was refused.
use crate::base64url::Field;
use vstd::prelude::*;

verus! {

/// Every reason for which the library refuses its input.
#[derive(Clone, Copy, Debug, PartialEq, Eq, Structural)]
pub enum Error {
    HkdfInputTooLarge,
    HkdfExpandFailed,
    TruncatedFragment,
    InvalidFragmentLength,
    FragmentExceedsPacket,
    FragmentReassemblyLimit,
    FragmentTotalChanged,
    ConflictingFragment,
    OverlappingFragment,
    FragmentMemoryLimit,
    InvalidSessionLifetime,
    InvalidSessionBandwidth,
    SessionLifetimeExpired,
    SessionQuotaCounterOverflow,
    SessionQuotaExceeded,
    SessionExpiresDuringShaping,
    InvalidOrConcurrentUpdate,
    EpochOverflow,
    InvalidUpdateEpoch,
    InvalidUpdateTag,
    InvalidUpdateCommit,
    UpdateNotPending,
    UpdateCommitEpochMismatch,
    RoutineUpdateNotPending,
    InvalidUpdateCommitTag,
    InvalidOrConcurrentFullRekey,
    InvalidFullRekeyEpoch,
    RekeyIdRepeated,
    InvalidFullRekeySignature,
    FullRekeyZeroSecret,
    InvalidFullRekeyConfirmation,
    FullRekeyNotPending,
    FullRekeyEpochMismatch,
    InvalidFullRekeyTag,
    UpdateTimedOut,
    MigrationDuringRekey,
    InvalidPathResponse,
    DataRecordCounterOverflow,
    PlaintextCounterOverflow,
    PendingEpochControlOnly,
    UnknownRecordEpoch,
    InvalidIpv4Header,
    InvalidIpv4HeaderLength,
    InvalidIpv4Length,
    Ipv4SourceViolation,
    InvalidIpv4Checksum,
    InvalidCarrierLength,
    InvalidLocalLength,
    InvalidWebTransportLength,
    NumberOutOfRange,
    H2BufferExceeded,
    H3BufferExceeded,
    TruncatedH2Message,
    TruncatedH3Message,
    H3DatagramTooLarge,
    CarrierClosed,
    ExpectedBinaryMessage,
    TruncatedLocalMessage,
    TruncatedWebTransportMessage,
    TruncatedInput,
    TrailingBytes,
    ExpectedClientHello,
    BadClientHelloLength,
    UnsupportedVersion,
    ClientClockOutsideWindow,
    RetryCookieTooLarge,
    InnerRetryDisabled,
    ExtensionsTooLarge,
    ExtensionsDisabled,
    MalformedExtension,
    ExtensionsOutOfOrder,
    UnknownCriticalExtension,
    ShortClientAuth,
    InvalidRequestedMtu,
    ClientIdMismatch,
    ClientKeyIdMismatch,
    InvalidClientSignature,
    InvalidClientFinished,
    InvalidIvLength,
    HandshakePlaintextTooLarge,
    HandshakeEncryptionFailed,
    InvalidHandshakeHeader,
    InvalidHandshakeLength,
    HandshakeAuthenticationFailed,
    HandshakeMessageTooLarge,
    ClientHelloTooLarge,
    ClientSelectorMismatch,
    ZeroSharedSecret,
    InvalidClientFinish,
    InvalidClientConfirmation,
    UnsupportedDataFlags,
    Ipv6NotEnabled,
    KeepaliveNotEmpty,
    PathProbeTooLarge,
    PathProbeReplyTooLarge,
    ControlFrameNotAlone,
    InvalidUpdateInitFrame,
    InvalidUpdateCommitFrame,
    InvalidFullRekeyInitFrame,
    InvalidFullRekeyConfirmFrame,
    InvalidMigrationRecord,
    InvalidMigrationFrame,
    RecordCapacityTooSmall,
    PacketExceedsFragmentLimit,
    RecordEncryptionFailed,
    RecordAuthenticationFailed,
    InvalidReplayWindow,
    TruncatedRecordHeader,
    RecordPlaintextTooLarge,
    RecordLimitReached,
    RecordContextMismatch,
    RecordLengthMismatch,
    RecordReplayed,
    InvalidRecordVersion,
    InvalidCiphertextLength,
    FrameBodyTooLarge,
    TruncatedFrameHeader,
    TruncatedFrameBody,
    UnsupportedCriticalFrame,
    InvalidBase64,
    UndecodableField(Field),
    WrongFieldLength(Field),
    InvalidTokenLength,
    UnknownClient,
    ExpiredToken,
    InvalidGateMac,
    ReplayedGateToken,
    InvalidMigrationTokenLength,
    UnknownMigrationSession,
    ExpiredMigrationToken,
    InvalidMigrationMac,
    ReplayedMigrationToken,
    DuplicateSessionId,
    AdmissionTableFull,
    AdmissionRateExceeded,
    InvalidTunName,
    InvalidTunMtu,
    InvalidSessionQueue,
    InvalidTunAddress,
    InvalidTunPrefix,
    HelperSocketsEqual,
    HelperClientSocketMissing,
    HelperSocketMissing,
    TooManyClients,
    InvalidH3Authority,
    InvalidH3Path,
    H3KeyPermissions,
    InvalidAuthority,
    InvalidTunnelPath,
    DuplicateClientId,
    InvalidClientPublicKey,
    InvalidTunnelAddress,
    TunnelAddressOutsideSubnet,
    DuplicateTunnelAddress,
    ClientAlreadyActive,
    PartialPacketWrite,
    NetworkSendFailed,
    InvalidHelperConfiguration,
    PartialHelperWrite,
}

impl Error {
    /// What the reason is called.
    pub open spec fn text(self) -> Seq<char> {
        match self {
            Error::HkdfInputTooLarge => "HKDF label, context or output too large"@,
            Error::HkdfExpandFailed => "HKDF expand failed"@,
            Error::TruncatedFragment => "truncated fragment"@,
            Error::InvalidFragmentLength => "invalid fragment length"@,
            Error::FragmentExceedsPacket => "fragment exceeds packet"@,
            Error::FragmentReassemblyLimit => "fragment reassembly limit reached"@,
            Error::FragmentTotalChanged => "fragment total length changed"@,
            Error::ConflictingFragment => "conflicting duplicate fragment"@,
            Error::OverlappingFragment => "overlapping fragment"@,
            Error::FragmentMemoryLimit => "fragment memory limit reached"@,
            Error::InvalidSessionLifetime => "invalid session lifetime"@,
            Error::InvalidSessionBandwidth => "invalid session bandwidth"@,
            Error::SessionLifetimeExpired => "session lifetime expired"@,
            Error::SessionQuotaCounterOverflow => "session quota counter overflow"@,
            Error::SessionQuotaExceeded => "session quota exceeded"@,
            Error::SessionExpiresDuringShaping => "session lifetime expires during shaping"@,
            Error::InvalidOrConcurrentUpdate => "invalid or concurrent key update"@,
            Error::EpochOverflow => "epoch overflow"@,
            Error::InvalidUpdateEpoch => "invalid key update epoch"@,
            Error::InvalidUpdateTag => "invalid key update transcript tag"@,
            Error::InvalidUpdateCommit => "invalid key update commit"@,
            Error::UpdateNotPending => "key update is not pending"@,
            Error::UpdateCommitEpochMismatch => "key update commit epoch mismatch"@,
            Error::RoutineUpdateNotPending => "routine key update is not pending"@,
            Error::InvalidUpdateCommitTag => "invalid key update commit tag"@,
            Error::InvalidOrConcurrentFullRekey => "invalid or concurrent full rekey"@,
            Error::InvalidFullRekeyEpoch => "invalid full rekey epoch"@,
            Error::RekeyIdRepeated => "repeated full rekey id"@,
            Error::InvalidFullRekeySignature => "invalid full rekey client signature"@,
            Error::FullRekeyZeroSecret => "all-zero full rekey shared secret"@,
            Error::InvalidFullRekeyConfirmation => "invalid full rekey confirmation"@,
            Error::FullRekeyNotPending => "full rekey is not pending"@,
            Error::FullRekeyEpochMismatch => "full rekey confirmation epoch mismatch"@,
            Error::InvalidFullRekeyTag => "invalid full rekey confirmation tag"@,
            Error::UpdateTimedOut => "key update timed out"@,
            Error::MigrationDuringRekey => "migration during rekey is not allowed"@,
            Error::InvalidPathResponse => "invalid migration path response"@,
            Error::DataRecordCounterOverflow => "data record counter overflow"@,
            Error::PlaintextCounterOverflow => "plaintext byte counter overflow"@,
            Error::PendingEpochControlOnly => "pending epoch accepts only control records"@,
            Error::UnknownRecordEpoch => "unknown record epoch"@,
            Error::InvalidIpv4Header => "invalid IPv4 header"@,
            Error::InvalidIpv4HeaderLength => "invalid IPv4 header length"@,
            Error::InvalidIpv4Length => "invalid IPv4 packet length"@,
            Error::Ipv4SourceViolation => "IPv4 source policy violation"@,
            Error::InvalidIpv4Checksum => "invalid IPv4 header checksum"@,
            Error::InvalidCarrierLength => "invalid H2 carrier message length"@,
            Error::InvalidLocalLength => "invalid local message length"@,
            Error::InvalidWebTransportLength => "invalid WebTransport message length"@,
            Error::NumberOutOfRange => "out of range integral type conversion attempted"@,
            Error::H2BufferExceeded => "H2 carrier buffer limit exceeded"@,
            Error::H3BufferExceeded => "H3 carrier buffer limit exceeded"@,
            Error::TruncatedH2Message => "truncated H2 carrier message"@,
            Error::TruncatedH3Message => "truncated H3 carrier message"@,
            Error::H3DatagramTooLarge => "H3 datagram exceeds carrier limit"@,
            Error::CarrierClosed => "carrier closed"@,
            Error::ExpectedBinaryMessage => "expected binary message"@,
            Error::TruncatedLocalMessage => "truncated local message"@,
            Error::TruncatedWebTransportMessage => "truncated WebTransport message"@,
            Error::TruncatedInput => "truncated input"@,
            Error::TrailingBytes => "trailing bytes"@,
            Error::ExpectedClientHello => "expected CLIENT_HELLO"@,
            Error::BadClientHelloLength => "bad CLIENT_HELLO length"@,
            Error::UnsupportedVersion => "unsupported version or suite"@,
            Error::ClientClockOutsideWindow => "client clock outside allowed window"@,
            Error::RetryCookieTooLarge => "retry cookie too large"@,
            Error::InnerRetryDisabled => "inner retry is disabled"@,
            Error::ExtensionsTooLarge => "extensions too large"@,
            Error::ExtensionsDisabled => "resumption and experimental extensions are disabled"@,
            Error::MalformedExtension => "malformed extension"@,
            Error::ExtensionsOutOfOrder => "extensions out of order"@,
            Error::UnknownCriticalExtension => "unknown critical extension"@,
            Error::ShortClientAuth => "short CLIENT_AUTH"@,
            Error::InvalidRequestedMtu => "invalid requested MTU"@,
            Error::ClientIdMismatch => "client id mismatch"@,
            Error::ClientKeyIdMismatch => "client key id mismatch"@,
            Error::InvalidClientSignature => "invalid client signature"@,
            Error::InvalidClientFinished => "invalid client finished"@,
            Error::InvalidIvLength => "invalid IV length"@,
            Error::HandshakePlaintextTooLarge => "handshake plaintext too large"@,
            Error::HandshakeEncryptionFailed => "handshake encryption failed"@,
            Error::InvalidHandshakeHeader => "invalid encrypted handshake header"@,
            Error::InvalidHandshakeLength => "invalid encrypted handshake length"@,
            Error::HandshakeAuthenticationFailed => "handshake authentication failed"@,
            Error::HandshakeMessageTooLarge => "handshake message too large"@,
            Error::ClientHelloTooLarge => "client hello too large"@,
            Error::ClientSelectorMismatch => "client selector mismatch"@,
            Error::ZeroSharedSecret => "all-zero X25519 output"@,
            Error::InvalidClientFinish => "invalid client finish"@,
            Error::InvalidClientConfirmation => "invalid client confirmation"@,
            Error::UnsupportedDataFlags => "unsupported data frame flags"@,
            Error::Ipv6NotEnabled => "IPv6 is not enabled for this client"@,
            Error::KeepaliveNotEmpty => "keepalive frame must be empty"@,
            Error::PathProbeTooLarge => "path probe too large"@,
            Error::PathProbeReplyTooLarge => "path probe reply too large"@,
            Error::ControlFrameNotAlone => "security-critical control record must contain one frame"@,
            Error::InvalidUpdateInitFrame => "invalid key update init epoch or flags"@,
            Error::InvalidUpdateCommitFrame => "invalid key update commit epoch or flags"@,
            Error::InvalidFullRekeyInitFrame => "invalid full rekey init epoch or flags"@,
            Error::InvalidFullRekeyConfirmFrame => "invalid full rekey confirmation epoch or flags"@,
            Error::InvalidMigrationRecord => "invalid migration response record"@,
            Error::InvalidMigrationFrame => "invalid migration response frame"@,
            Error::RecordCapacityTooSmall => "record capacity too small"@,
            Error::PacketExceedsFragmentLimit => "packet exceeds fragment limit"@,
            Error::RecordEncryptionFailed => "record encryption failed"@,
            Error::RecordAuthenticationFailed => "record authentication failed"@,
            Error::InvalidReplayWindow => "invalid replay window width"@,
            Error::TruncatedRecordHeader => "truncated record header"@,
            Error::RecordPlaintextTooLarge => "record plaintext too large"@,
            Error::RecordLimitReached => "record hard limit reached"@,
            Error::RecordContextMismatch => "record context mismatch"@,
            Error::RecordLengthMismatch => "record length mismatch"@,
            Error::RecordReplayed => "record rejected by replay precheck"@,
            Error::InvalidRecordVersion => "invalid record version or flags"@,
            Error::InvalidCiphertextLength => "invalid ciphertext length"@,
            Error::FrameBodyTooLarge => "frame body too large"@,
            Error::TruncatedFrameHeader => "truncated frame header"@,
            Error::TruncatedFrameBody => "truncated frame body"@,
            Error::UnsupportedCriticalFrame => "unsupported critical frame"@,
            Error::InvalidBase64 => "invalid base64"@,
            Error::InvalidTokenLength => "invalid token length"@,
            Error::UnknownClient => "unknown client"@,
            Error::ExpiredToken => "expired token"@,
            Error::InvalidGateMac => "invalid gate MAC"@,
            Error::ReplayedGateToken => "replayed gate token"@,
            Error::InvalidMigrationTokenLength => "invalid migration token length"@,
            Error::UnknownMigrationSession => "unknown migration session"@,
            Error::ExpiredMigrationToken => "expired migration token"@,
            Error::InvalidMigrationMac => "invalid migration MAC"@,
            Error::ReplayedMigrationToken => "replayed migration token"@,
            Error::DuplicateSessionId => "duplicate active session id"@,
            Error::AdmissionTableFull => "admission rate table full"@,
            Error::AdmissionRateExceeded => "admission rate exceeded"@,
            Error::InvalidTunName => "invalid TUN interface name"@,
            Error::InvalidTunMtu => "invalid TUN MTU"@,
            Error::InvalidSessionQueue => "invalid session queue size"@,
            Error::InvalidTunAddress => "invalid TUN IPv4 address"@,
            Error::InvalidTunPrefix => "invalid TUN prefix length"@,
            Error::HelperSocketsEqual => "helper socket paths must be different"@,
            Error::HelperClientSocketMissing => "helper_client_socket is required"@,
            Error::HelperSocketMissing => "helper_socket is required"@,
            Error::TooManyClients => "too many configured clients"@,
            Error::InvalidH3Authority => "H3 authority must contain explicit :443 port"@,
            Error::InvalidH3Path => "invalid H3 path"@,
            Error::H3KeyPermissions => "H3 private key permissions are too broad"@,
            Error::InvalidAuthority => "authority must contain explicit :443 port"@,
            Error::InvalidTunnelPath => "tunnel_path must start with /"@,
            Error::DuplicateClientId => "duplicate client id"@,
            Error::InvalidClientPublicKey => "invalid client public key"@,
            Error::InvalidTunnelAddress => "invalid tunnel IPv4"@,
            Error::TunnelAddressOutsideSubnet => "client tunnel IPv4 is outside the usable TUN subnet"@,
            Error::DuplicateTunnelAddress => "duplicate active client tunnel IPv4"@,
            Error::ClientAlreadyActive => "client already has an active session"@,
            Error::PartialPacketWrite => "partial network packet write"@,
            Error::NetworkSendFailed => "network helper send failed"@,
            Error::InvalidHelperConfiguration => "invalid network helper configuration"@,
            Error::PartialHelperWrite => "partial helper TUN write"@,
            Error::UndecodableField(Field::ServerSigningSeed) => "decode server signing seed"@,
            Error::UndecodableField(Field::ClientId) => "decode client id"@,
            Error::UndecodableField(Field::ClientPublicKey) => "decode client public key"@,
            Error::UndecodableField(Field::GateKey) => "decode gate key"@,
            Error::WrongFieldLength(Field::ServerSigningSeed) => "server signing seed must be 32 bytes"@,
            Error::WrongFieldLength(Field::ClientId) => "client id must be 16 bytes"@,
            Error::WrongFieldLength(Field::ClientPublicKey) => "client public key must be 32 bytes"@,
            Error::WrongFieldLength(Field::GateKey) => "gate key must be 32 bytes"@,
        }
    }

    /// What the reason is called.
    pub fn message(self) -> (message: &'static str)
        ensures
            message@ == self.text(),
    {
        match self {
            Error::HkdfInputTooLarge => "HKDF label, context or output too large",
            Error::HkdfExpandFailed => "HKDF expand failed",
            Error::TruncatedFragment => "truncated fragment",
            Error::InvalidFragmentLength => "invalid fragment length",
            Error::FragmentExceedsPacket => "fragment exceeds packet",
            Error::FragmentReassemblyLimit => "fragment reassembly limit reached",
            Error::FragmentTotalChanged => "fragment total length changed",
            Error::ConflictingFragment => "conflicting duplicate fragment",
            Error::OverlappingFragment => "overlapping fragment",
            Error::FragmentMemoryLimit => "fragment memory limit reached",
            Error::InvalidSessionLifetime => "invalid session lifetime",
            Error::InvalidSessionBandwidth => "invalid session bandwidth",
            Error::SessionLifetimeExpired => "session lifetime expired",
            Error::SessionQuotaCounterOverflow => "session quota counter overflow",
            Error::SessionQuotaExceeded => "session quota exceeded",
            Error::SessionExpiresDuringShaping => "session lifetime expires during shaping",
            Error::InvalidOrConcurrentUpdate => "invalid or concurrent key update",
            Error::EpochOverflow => "epoch overflow",
            Error::InvalidUpdateEpoch => "invalid key update epoch",
            Error::InvalidUpdateTag => "invalid key update transcript tag",
            Error::InvalidUpdateCommit => "invalid key update commit",
            Error::UpdateNotPending => "key update is not pending",
            Error::UpdateCommitEpochMismatch => "key update commit epoch mismatch",
            Error::RoutineUpdateNotPending => "routine key update is not pending",
            Error::InvalidUpdateCommitTag => "invalid key update commit tag",
            Error::InvalidOrConcurrentFullRekey => "invalid or concurrent full rekey",
            Error::InvalidFullRekeyEpoch => "invalid full rekey epoch",
            Error::RekeyIdRepeated => "repeated full rekey id",
            Error::InvalidFullRekeySignature => "invalid full rekey client signature",
            Error::FullRekeyZeroSecret => "all-zero full rekey shared secret",
            Error::InvalidFullRekeyConfirmation => "invalid full rekey confirmation",
            Error::FullRekeyNotPending => "full rekey is not pending",
            Error::FullRekeyEpochMismatch => "full rekey confirmation epoch mismatch",
            Error::InvalidFullRekeyTag => "invalid full rekey confirmation tag",
            Error::UpdateTimedOut => "key update timed out",
            Error::MigrationDuringRekey => "migration during rekey is not allowed",
            Error::InvalidPathResponse => "invalid migration path response",
            Error::DataRecordCounterOverflow => "data record counter overflow",
            Error::PlaintextCounterOverflow => "plaintext byte counter overflow",
            Error::PendingEpochControlOnly => "pending epoch accepts only control records",
            Error::UnknownRecordEpoch => "unknown record epoch",
            Error::InvalidIpv4Header => "invalid IPv4 header",
            Error::InvalidIpv4HeaderLength => "invalid IPv4 header length",
            Error::InvalidIpv4Length => "invalid IPv4 packet length",
            Error::Ipv4SourceViolation => "IPv4 source policy violation",
            Error::InvalidIpv4Checksum => "invalid IPv4 header checksum",
            Error::InvalidCarrierLength => "invalid H2 carrier message length",
            Error::InvalidLocalLength => "invalid local message length",
            Error::InvalidWebTransportLength => "invalid WebTransport message length",
            Error::NumberOutOfRange => "out of range integral type conversion attempted",
            Error::H2BufferExceeded => "H2 carrier buffer limit exceeded",
            Error::H3BufferExceeded => "H3 carrier buffer limit exceeded",
            Error::TruncatedH2Message => "truncated H2 carrier message",
            Error::TruncatedH3Message => "truncated H3 carrier message",
            Error::H3DatagramTooLarge => "H3 datagram exceeds carrier limit",
            Error::CarrierClosed => "carrier closed",
            Error::ExpectedBinaryMessage => "expected binary message",
            Error::TruncatedLocalMessage => "truncated local message",
            Error::TruncatedWebTransportMessage => "truncated WebTransport message",
            Error::TruncatedInput => "truncated input",
            Error::TrailingBytes => "trailing bytes",
            Error::ExpectedClientHello => "expected CLIENT_HELLO",
            Error::BadClientHelloLength => "bad CLIENT_HELLO length",
            Error::UnsupportedVersion => "unsupported version or suite",
            Error::ClientClockOutsideWindow => "client clock outside allowed window",
            Error::RetryCookieTooLarge => "retry cookie too large",
            Error::InnerRetryDisabled => "inner retry is disabled",
            Error::ExtensionsTooLarge => "extensions too large",
            Error::ExtensionsDisabled => "resumption and experimental extensions are disabled",
            Error::MalformedExtension => "malformed extension",
            Error::ExtensionsOutOfOrder => "extensions out of order",
            Error::UnknownCriticalExtension => "unknown critical extension",
            Error::ShortClientAuth => "short CLIENT_AUTH",
            Error::InvalidRequestedMtu => "invalid requested MTU",
            Error::ClientIdMismatch => "client id mismatch",
            Error::ClientKeyIdMismatch => "client key id mismatch",
            Error::InvalidClientSignature => "invalid client signature",
            Error::InvalidClientFinished => "invalid client finished",
            Error::InvalidIvLength => "invalid IV length",
            Error::HandshakePlaintextTooLarge => "handshake plaintext too large",
            Error::HandshakeEncryptionFailed => "handshake encryption failed",
            Error::InvalidHandshakeHeader => "invalid encrypted handshake header",
            Error::InvalidHandshakeLength => "invalid encrypted handshake length",
            Error::HandshakeAuthenticationFailed => "handshake authentication failed",
            Error::HandshakeMessageTooLarge => "handshake message too large",
            Error::ClientHelloTooLarge => "client hello too large",
            Error::ClientSelectorMismatch => "client selector mismatch",
            Error::ZeroSharedSecret => "all-zero X25519 output",
            Error::InvalidClientFinish => "invalid client finish",
            Error::InvalidClientConfirmation => "invalid client confirmation",
            Error::UnsupportedDataFlags => "unsupported data frame flags",
            Error::Ipv6NotEnabled => "IPv6 is not enabled for this client",
            Error::KeepaliveNotEmpty => "keepalive frame must be empty",
            Error::PathProbeTooLarge => "path probe too large",
            Error::PathProbeReplyTooLarge => "path probe reply too large",
            Error::ControlFrameNotAlone => "security-critical control record must contain one frame",
            Error::InvalidUpdateInitFrame => "invalid key update init epoch or flags",
            Error::InvalidUpdateCommitFrame => "invalid key update commit epoch or flags",
            Error::InvalidFullRekeyInitFrame => "invalid full rekey init epoch or flags",
            Error::InvalidFullRekeyConfirmFrame => "invalid full rekey confirmation epoch or flags",
            Error::InvalidMigrationRecord => "invalid migration response record",
            Error::InvalidMigrationFrame => "invalid migration response frame",
            Error::RecordCapacityTooSmall => "record capacity too small",
            Error::PacketExceedsFragmentLimit => "packet exceeds fragment limit",
            Error::RecordEncryptionFailed => "record encryption failed",
            Error::RecordAuthenticationFailed => "record authentication failed",
            Error::InvalidReplayWindow => "invalid replay window width",
            Error::TruncatedRecordHeader => "truncated record header",
            Error::RecordPlaintextTooLarge => "record plaintext too large",
            Error::RecordLimitReached => "record hard limit reached",
            Error::RecordContextMismatch => "record context mismatch",
            Error::RecordLengthMismatch => "record length mismatch",
            Error::RecordReplayed => "record rejected by replay precheck",
            Error::InvalidRecordVersion => "invalid record version or flags",
            Error::InvalidCiphertextLength => "invalid ciphertext length",
            Error::FrameBodyTooLarge => "frame body too large",
            Error::TruncatedFrameHeader => "truncated frame header",
            Error::TruncatedFrameBody => "truncated frame body",
            Error::UnsupportedCriticalFrame => "unsupported critical frame",
            Error::InvalidBase64 => "invalid base64",
            Error::InvalidTokenLength => "invalid token length",
            Error::UnknownClient => "unknown client",
            Error::ExpiredToken => "expired token",
            Error::InvalidGateMac => "invalid gate MAC",
            Error::ReplayedGateToken => "replayed gate token",
            Error::InvalidMigrationTokenLength => "invalid migration token length",
            Error::UnknownMigrationSession => "unknown migration session",
            Error::ExpiredMigrationToken => "expired migration token",
            Error::InvalidMigrationMac => "invalid migration MAC",
            Error::ReplayedMigrationToken => "replayed migration token",
            Error::DuplicateSessionId => "duplicate active session id",
            Error::AdmissionTableFull => "admission rate table full",
            Error::AdmissionRateExceeded => "admission rate exceeded",
            Error::InvalidTunName => "invalid TUN interface name",
            Error::InvalidTunMtu => "invalid TUN MTU",
            Error::InvalidSessionQueue => "invalid session queue size",
            Error::InvalidTunAddress => "invalid TUN IPv4 address",
            Error::InvalidTunPrefix => "invalid TUN prefix length",
            Error::HelperSocketsEqual => "helper socket paths must be different",
            Error::HelperClientSocketMissing => "helper_client_socket is required",
            Error::HelperSocketMissing => "helper_socket is required",
            Error::TooManyClients => "too many configured clients",
            Error::InvalidH3Authority => "H3 authority must contain explicit :443 port",
            Error::InvalidH3Path => "invalid H3 path",
            Error::H3KeyPermissions => "H3 private key permissions are too broad",
            Error::InvalidAuthority => "authority must contain explicit :443 port",
            Error::InvalidTunnelPath => "tunnel_path must start with /",
            Error::DuplicateClientId => "duplicate client id",
            Error::InvalidClientPublicKey => "invalid client public key",
            Error::InvalidTunnelAddress => "invalid tunnel IPv4",
            Error::TunnelAddressOutsideSubnet => "client tunnel IPv4 is outside the usable TUN subnet",
            Error::DuplicateTunnelAddress => "duplicate active client tunnel IPv4",
            Error::ClientAlreadyActive => "client already has an active session",
            Error::PartialPacketWrite => "partial network packet write",
            Error::NetworkSendFailed => "network helper send failed",
            Error::InvalidHelperConfiguration => "invalid network helper configuration",
            Error::PartialHelperWrite => "partial helper TUN write",
            Error::UndecodableField(Field::ServerSigningSeed) => "decode server signing seed",
            Error::UndecodableField(Field::ClientId) => "decode client id",
            Error::UndecodableField(Field::ClientPublicKey) => "decode client public key",
            Error::UndecodableField(Field::GateKey) => "decode gate key",
            Error::WrongFieldLength(Field::ServerSigningSeed) => "server signing seed must be 32 bytes",
            Error::WrongFieldLength(Field::ClientId) => "client id must be 16 bytes",
            Error::WrongFieldLength(Field::ClientPublicKey) => "client public key must be 32 bytes",
            Error::WrongFieldLength(Field::GateKey) => "gate key must be 32 bytes",
        }
    }
}

} // verus!
