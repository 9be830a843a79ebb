//! Independent public or credential-based admission for relay endpoints.

use vstd::prelude::*;

use crate::records::IdentityPublic;

verus! {

/// What a peer connects as.
#[derive(Clone, Copy, Debug, PartialEq, Eq, Structural)]
pub enum CredentialRole {
    /// Sends streams.
    Publisher,
    /// Watches streams.
    Viewer,
}

/// How a relay lets peers in.
#[derive(Clone, Copy, Debug, PartialEq, Eq, Structural)]
pub enum RelayAccessMode {
    /// Everyone may connect.
    Public,
    /// A credential is required.
    Signed,
}

/// A relay-access credential, as far as admission reads it.
#[derive(Clone, Copy, Debug)]
pub struct NativeCredential {
    /// Identity that the credential was issued to.
    pub identity: IdentityPublic,
    /// Exclusive end of validity, Unix milliseconds.
    pub not_after_ms: i64,
}

/// The first message of every session.
#[derive(Clone, Copy, Debug)]
pub struct SessionHello {
    /// What the peer connects as.
    pub role: CredentialRole,
    /// The peer's application identity.
    pub identity: IdentityPublic,
    /// The peer's credential, if it has one.
    pub credential: Option<NativeCredential>,
}

/// Relay admission policy applied after the transport handshake.
#[derive(Clone, Copy, Debug, PartialEq, Eq, Structural)]
pub enum NativeAccessPolicy {
    /// Let in any structurally valid publisher or viewer identity.
    Public,
    /// Require a credential from the configured relay-access authority.
    Signed,
}

/// Successful relay admission.
#[derive(Clone, Copy, Debug, PartialEq, Eq, Structural)]
pub struct NativeAdmission {
    /// Policy announced in the relay welcome.
    pub mode: RelayAccessMode,
    /// Exclusive credential expiry; absent in public mode.
    pub expires_at_ms: Option<i64>,
}

/// Errors produced while admitting a peer.
#[derive(Clone, Copy, Debug, PartialEq, Eq, Structural)]
pub enum NativeAccessError {
    /// Session hello requested the other listener's role.
    WrongRole,
    /// Signed mode requires a credential.
    MissingCredential,
    /// The credential belongs to another application identity.
    CredentialIdentity,
    /// Issuer, signature, role, key binding, validity, or revocation failed.
    CredentialRejected,
}

impl NativeAccessPolicy {
    /// What admission answers. The first reason to refuse counts.
    pub open spec fn answer(
        self,
        hello: SessionHello,
        expected_role: CredentialRole,
        credential_verified: bool,
    ) -> Result<NativeAdmission, NativeAccessError> {
        if hello.role != expected_role {
            Err(NativeAccessError::WrongRole)
        } else {
            match self {
                NativeAccessPolicy::Public => Ok(
                    NativeAdmission { mode: RelayAccessMode::Public, expires_at_ms: None },
                ),
                NativeAccessPolicy::Signed => match hello.credential {
                    None => Err(NativeAccessError::MissingCredential),
                    Some(credential) => if credential.identity != hello.identity {
                        Err(NativeAccessError::CredentialIdentity)
                    } else if !credential_verified {
                        Err(NativeAccessError::CredentialRejected)
                    } else {
                        Ok(
                            NativeAdmission {
                                mode: RelayAccessMode::Signed,
                                expires_at_ms: Some(credential.not_after_ms),
                            },
                        )
                    },
                },
            }
        }
    }

    /// Validates one hello against the role of the listener it arrived at.
    ///
    /// `credential_verified` says whether the hello's credential verifies now, for that
    /// role and for the key that the transport handshake authenticated, against the
    /// configured authority and its revocations. Public mode does not ask.
    pub fn admit_peer(
        &self,
        hello: &SessionHello,
        expected_role: CredentialRole,
        credential_verified: bool,
    ) -> (result: Result<NativeAdmission, NativeAccessError>)
        ensures
            result == self.answer(*hello, expected_role, credential_verified),
    {
        if hello.role != expected_role {
            return Err(NativeAccessError::WrongRole);
        }
        match self {
            NativeAccessPolicy::Public => Ok(
                NativeAdmission { mode: RelayAccessMode::Public, expires_at_ms: None },
            ),
            NativeAccessPolicy::Signed => match &hello.credential {
                None => Err(NativeAccessError::MissingCredential),
                Some(credential) => {
                    if !credential.identity.same(&hello.identity) {
                        return Err(NativeAccessError::CredentialIdentity);
                    }
                    if !credential_verified {
                        return Err(NativeAccessError::CredentialRejected);
                    }
                    Ok(
                        NativeAdmission {
                            mode: RelayAccessMode::Signed,
                            expires_at_ms: Some(credential.not_after_ms),
                        },
                    )
                },
            },
        }
    }
}

/// A signed relay admits nobody without a verified credential of the same identity, and
/// admission ends with the credential.
pub proof fn signed_mode_admits_verified_credentials_only(
    hello: SessionHello,
    expected_role: CredentialRole,
    credential_verified: bool,
)
    ensures
        NativeAccessPolicy::Signed.answer(hello, expected_role, credential_verified) matches Ok(
            admission,
        ) ==> {
            &&& hello.role == expected_role
            &&& credential_verified
            &&& hello.credential matches Some(credential)
            &&& credential.identity == hello.identity
            &&& admission.mode == RelayAccessMode::Signed
            &&& admission.expires_at_ms == Some(credential.not_after_ms)
        },
{
}

/// A public relay admits everyone who asks for the right role, without an end.
pub proof fn public_mode_admits_every_identity(
    hello: SessionHello,
    expected_role: CredentialRole,
    credential_verified: bool,
)
    requires
        hello.role == expected_role,
    ensures
        NativeAccessPolicy::Public.answer(hello, expected_role, credential_verified) == Ok::<
            NativeAdmission,
            NativeAccessError,
        >(NativeAdmission { mode: RelayAccessMode::Public, expires_at_ms: None }),
{
}

} // verus!
