//! Config for the directory client.
use vstd::prelude::*;

use crate::error::Error;

verus! {

/// Names of attributes to use for extracting relevant data
#[derive(Debug, Clone)]
pub struct AttributeConfig {
    /// The attribute containing the immutable unique id of the user
    pub pid: String,
    /// Name of the attribute that holds the time an object was most recently
    /// modified
    pub updated: Option<String>,
    /// Additional attributes
    pub additional: Vec<String>,
    /// Attributes to track for changes
    pub attrs_to_track: Vec<String>,
    /// Whether to explicitly filter for attributes in the search request
    pub filter_attributes: bool,
}

/// The update-timestamp attribute, as a list of at most one name.
pub open spec fn updated_names(updated: Option<String>) -> Seq<Seq<char>> {
    match updated {
        Some(u) => seq![u@],
        None => Seq::empty(),
    }
}

impl AttributeConfig {
    /// The attributes whose values decide whether an entity changed: the
    /// tracked attributes, then the update-timestamp attribute if configured.
    pub open spec fn tracked_names(&self) -> Seq<Seq<char>> {
        self.attrs_to_track.deep_view() + updated_names(self.updated)
    }

    /// The attribute list that the server is asked to return.
    pub open spec fn attr_filter_spec(&self) -> Seq<Seq<char>> {
        if self.filter_attributes {
            self.additional.deep_view() + seq![self.pid@] + updated_names(self.updated)
                + self.attrs_to_track.deep_view()
        } else {
            seq!["*"@]
        }
    }

    /// Returns the list of object attributes the server should return.
    pub fn get_attr_filter(&self) -> (r: Vec<String>)
        ensures
            r.deep_view() == self.attr_filter_spec(),
    {
        proof {
            reveal_strlit("*");
        }
        if self.filter_attributes {
            let mut r: Vec<String> = Vec::new();
            append_copies(&mut r, &self.additional);
            r.push(self.pid.clone());
            if let Some(updated) = &self.updated {
                r.push(updated.clone());
            }
            append_copies(&mut r, &self.attrs_to_track);
            proof {
                assert(r.deep_view() =~= self.attr_filter_spec());
            }
            r
        } else {
            let r = vec!["*".to_owned()];
            proof {
                assert(r.deep_view() =~= self.attr_filter_spec());
            }
            r
        }
    }

    /// Returns an example AttributeConfig
    pub fn example() -> (r: Self)
        ensures
            r.pid@ == "objectGUID"@,
            r.updated matches Some(u) && u@ == "mtime"@,
            r.additional.deep_view() == seq!["admin"@],
            r.attrs_to_track.deep_view() == seq!["enabled"@],
            r.filter_attributes,
    {
        let r = AttributeConfig {
            pid: "objectGUID".to_owned(),
            updated: Some("mtime".to_owned()),
            additional: vec!["admin".to_owned()],
            attrs_to_track: vec!["enabled".to_owned()],
            filter_attributes: true,
        };
        proof {
            assert(r.additional.deep_view() =~= seq!["admin"@]);
            assert(r.attrs_to_track.deep_view() =~= seq!["enabled"@]);
        }
        r
    }
}

/// Configurable filters and bases to use for searches
#[derive(Debug, Clone)]
pub struct Searches {
    /// If set, enables the simple paged search control (RFC 2696) and sets
    /// the page size to the given value
    pub page_size: Option<i32>,
    /// The search filter to use when enumerating users
    pub user_filter: String,
    /// The search base to use when enumerating users
    pub user_base: String,
}

/// Configuration for how caching should be performed.
#[derive(Debug, Clone, Copy, PartialEq, Eq, Structural)]
pub enum CacheMethod {
    /// Check if the tracked attributes of the user entry differ from the
    /// cached ones
    ModificationTime,
    /// Don't perform any caching and forward every entry unconditionally
    Disabled,
}

/// A filesystem path, carried through the configuration unread.
#[verifier::external_type_specification]
#[verifier::external_body]
pub struct ExPathBuf(std::path::PathBuf);

/// A URL, carried through the configuration unread.
#[verifier::external_type_specification]
#[verifier::external_body]
pub struct ExUrl(url::Url);

/// LDAP configuration.
#[derive(Debug)]
pub struct Config {
    /// The URL to connect to the server with. Supports ldap, ldaps, and ldapi
    /// schemes
    pub url: url::Url,
    /// Connection settings.
    pub connection: ConnectionConfig,
    /// The username for the search user
    pub search_user: String,
    /// The password for the search user
    pub search_password: String,
    /// Filters and bases to use for searches
    pub searches: Searches,
    /// Names of attributes to search for and extract data from
    pub attributes: AttributeConfig,
    /// How caching of user data should be performed
    pub cache_method: CacheMethod,
    /// Check for deleted entries (full search on every sync needed)
    pub check_for_deleted_entries: bool,
}

/// Configuration for how to connect to the server
#[derive(Debug)]
pub struct ConnectionConfig {
    /// Timeout to establish a connection in seconds.
    pub timeout: u64,
    /// Operation timeout. For search per reply.
    pub operation_timeout: std::time::Duration,
    /// TLS config
    pub tls: TLSConfig,
}

/// TLS Configuration
#[derive(Debug)]
pub struct TLSConfig {
    /// Use StartTLS extended operation for establishing a secure connection,
    /// rather than TLS on a dedicated port.
    pub starttls: bool,
    /// Disable verification of TLS certificates
    pub no_tls_verify: bool,
    /// TLS root certificates path
    pub root_certificates_path: Option<std::path::PathBuf>,
    /// Path of the TLS client key to use for the connection
    pub client_key_path: Option<std::path::PathBuf>,
    /// Path of the TLS client certificate to use for the connection
    pub client_certificate_path: Option<std::path::PathBuf>,
}

/// The certificate files that setting up TLS for a connection reads.
#[derive(Debug, Clone, Copy, PartialEq, Eq, Structural)]
pub enum TlsFiles {
    /// No custom root certificates: the system's roots are used.
    SystemRoots,
    /// Custom root certificates, without a client identity.
    CustomRoots,
    /// Custom root certificates and a client key and certificate.
    CustomRootsAndIdentity,
}

/// The error text for a client key without a certificate, or the reverse.
pub open spec fn half_identity_message() -> Seq<char> {
    "Both a client certificate and key file in PKCS8 format must be specified"@
}

impl TLSConfig {
    /// Decides which certificate files a connection must load. Client
    /// credentials are only read together with custom root certificates, and
    /// then the key and the certificate must be given together.
    pub fn files_to_load(&self) -> (r: Result<TlsFiles, Error>)
        ensures
            self.root_certificates_path is None ==> r == Ok::<TlsFiles, Error>(
                TlsFiles::SystemRoots,
            ),
            self.root_certificates_path is Some ==> {
                if self.client_key_path is Some && self.client_certificate_path is Some {
                    r == Ok::<TlsFiles, Error>(TlsFiles::CustomRootsAndIdentity)
                } else if self.client_key_path is None && self.client_certificate_path is None {
                    r == Ok::<TlsFiles, Error>(TlsFiles::CustomRoots)
                } else {
                    r matches Err(Error::Invalid(m)) && m@ == half_identity_message()
                }
            },
    {
        if self.root_certificates_path.is_none() {
            return Ok(TlsFiles::SystemRoots);
        }
        match (&self.client_key_path, &self.client_certificate_path) {
            (Some(_), Some(_)) => Ok(TlsFiles::CustomRootsAndIdentity),
            (None, None) => Ok(TlsFiles::CustomRoots),
            _ => {
                let m = "Both a client certificate and key file in PKCS8 format must be specified";
                proof {
                    reveal_strlit(
                        "Both a client certificate and key file in PKCS8 format must be specified",
                    );
                }
                Err(Error::Invalid(m.to_owned()))
            },
        }
    }
}

/// Appends a copy of each string of `src` to `dst`.
fn append_copies(dst: &mut Vec<String>, src: &Vec<String>)
    ensures
        final(dst).deep_view() == old(dst).deep_view() + src.deep_view(),
{
    let ghost start = dst.deep_view();
    let mut i: usize = 0;
    while i < src.len()
        invariant
            0 <= i <= src@.len(),
            dst@.len() == start.len() + i,
            forall|k: int| 0 <= k < start.len() ==> #[trigger] dst@[k]@ == start[k],
            forall|k: int| 0 <= k < i ==> #[trigger] dst@[start.len() + k]@ == src@[k]@,
        decreases src@.len() - i,
    {
        dst.push(src[i].clone());
        i = i + 1;
    }
    proof {
        assert forall|k: int| 0 <= k < dst@.len() implies #[trigger] dst.deep_view()[k] == (start
            + src.deep_view())[k] by {
            if k >= start.len() {
                assert(dst@[start.len() + (k - start.len())]@ == src@[k - start.len()]@);
            }
        }
        assert(dst.deep_view() =~= start + src.deep_view());
    }
}

} // verus!
