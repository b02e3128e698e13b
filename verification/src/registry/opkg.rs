//! OpenWrt opkg registry: where a release's package index lives, and reading
//! the downloaded `Packages.gz`.
use vstd::prelude::*;

use crate::error::OilError;
use crate::registry::eopkg::{index_cache_fresh, trim_end_slashes, trim_trailing_slashes, INDEX_CACHE_SECS};
use crate::registry::{cache_file_name, cache_file_spec};
use crate::text::{owned, push_str, starts_with, str_eq};

verus! {

/// What gzip decompression makes of `data`: the bytes of its first member, or
/// `None` when `data` does not start with a valid gzip member.
pub uninterp spec fn gz_decoded(data: Seq<u8>) -> Option<Seq<u8>>;

/// `flate2::read::GzDecoder::new` over `data`, read with
/// `Read::read_to_string`: the decompressed text, or the text of the error
/// (also when the decompressed bytes are not UTF-8). The contract ties the
/// result to `gz_decoded`; the error's wording is not stated.
#[verifier::external_body]
pub(crate) fn gunzip_text(data: &[u8]) -> (r: Result<String, String>)
    ensures
        match r {
            Ok(s) => gz_decoded(data@) matches Some(raw) && vstd::utf8::valid_utf8(raw) && s@
                == vstd::utf8::decode_utf8(raw),
            Err(_) => !(gz_decoded(data@) matches Some(raw) && vstd::utf8::valid_utf8(raw)),
        },
{
    let mut out = String::new();
    match std::io::Read::read_to_string(&mut flate2::read::GzDecoder::new(data), &mut out) {
        Ok(_) => Ok(out),
        Err(e) => Err(e.to_string()),
    }
}

/// An opkg feed: its base URL and the package architecture.
pub struct OpkgRegistry {
    baseurl: String,
    arch: String,
}

/// The OpenWrt package architecture for a CPU architecture name as
/// `std::env::consts::ARCH` gives it.
pub open spec fn openwrt_arch_spec(arch: Seq<char>) -> Seq<char> {
    if arch == "aarch64"@ {
        "aarch64_cortex-a53"@
    } else if arch == "arm"@ {
        "arm_arm1176jzf_s_vfp"@
    } else if arch == "mips"@ {
        "mips_24kc"@
    } else {
        arch
    }
}

/// See `openwrt_arch_spec`.
pub fn openwrt_arch(arch: &str) -> (r: String)
    ensures
        r@ == openwrt_arch_spec(arch@),
{
    if str_eq(arch, "aarch64") {
        owned("aarch64_cortex-a53")
    } else if str_eq(arch, "arm") {
        owned("arm_arm1176jzf_s_vfp")
    } else if str_eq(arch, "mips") {
        owned("mips_24kc")
    } else {
        owned(arch)
    }
}

impl OpkgRegistry {
    /// The feed's base URL, without trailing `/`.
    pub closed spec fn baseurl_spec(&self) -> Seq<char> {
        self.baseurl@
    }

    /// The package architecture.
    pub closed spec fn arch_spec(&self) -> Seq<char> {
        self.arch@
    }

    pub fn new(baseurl: &str, arch: &str) -> (r: Self)
        ensures
            r.baseurl_spec() == trim_end_slashes(baseurl@),
            r.arch_spec() == arch@,
    {
        OpkgRegistry { baseurl: trim_trailing_slashes(baseurl), arch: owned(arch) }
    }

    /// The OpenWrt 23.05.5 release feed for the host CPU architecture
    /// `host_arch` (as `std::env::consts::ARCH` names it).
    pub fn openwrt_default(host_arch: &str) -> (r: Self)
        ensures
            r.baseurl_spec() == "https://downloads.openwrt.org/releases/23.05.5/packages"@,
            r.arch_spec() == openwrt_arch_spec(host_arch@),
    {
        let arch = openwrt_arch(host_arch);
        let r = Self::new("https://downloads.openwrt.org/releases/23.05.5/packages", arch.as_str());
        proof {
            reveal_strlit("https://downloads.openwrt.org/releases/23.05.5/packages");
            assert(trim_end_slashes("https://downloads.openwrt.org/releases/23.05.5/packages"@)
                == "https://downloads.openwrt.org/releases/23.05.5/packages"@);
        }
        r
    }

    /// Where the feed's compressed package index lives.
    pub fn repo_url(&self) -> (r: String)
        ensures
            r@ == self.baseurl_spec() + "/"@ + self.arch_spec() + "/Packages.gz"@,
    {
        let mut r = self.baseurl.clone();
        push_str(&mut r, "/");
        push_str(&mut r, self.arch.as_str());
        push_str(&mut r, "/Packages.gz");
        r
    }

    /// The base URL packages are downloaded relative to.
    pub fn baseurl(&self) -> (r: &str)
        ensures
            r@ == self.baseurl_spec(),
    {
        self.baseurl.as_str()
    }

    /// The name of the file the parsed index is cached in.
    pub fn cache_file_name(&self) -> (r: String)
        ensures
            r@ == cache_file_spec("opkg"@, self.baseurl_spec(), self.arch_spec()),
    {
        cache_file_name("opkg", self.baseurl.as_str(), self.arch.as_str())
    }

    /// Is a cached index modified `age_secs` seconds ago still fresh?
    pub fn is_cache_fresh(age_secs: Option<u64>) -> (r: bool)
        ensures
            r == (age_secs matches Some(a) && a < INDEX_CACHE_SECS),
    {
        index_cache_fresh(age_secs)
    }

    /// The text of a downloaded `Packages.gz`.
    pub fn decode_packages(&self, bytes: &[u8]) -> (r: Result<String, OilError>)
        ensures
            match r {
                Ok(s) => gz_decoded(bytes@) matches Some(raw) && vstd::utf8::valid_utf8(raw) && s@
                    == vstd::utf8::decode_utf8(raw),
                Err(e) => !(gz_decoded(bytes@) matches Some(raw) && vstd::utf8::valid_utf8(raw))
                    && e@ is Install && starts_with(e.text(), "Failed to decompress Packages.gz: "@),
            },
    {
        match gunzip_text(bytes) {
            Ok(s) => Ok(s),
            Err(m) => {
                let mut msg = owned("Failed to decompress Packages.gz: ");
                push_str(&mut msg, m.as_str());
                proof {
                    assert(msg@.take("Failed to decompress Packages.gz: "@.len() as int)
                        == "Failed to decompress Packages.gz: "@);
                }
                Err(OilError::InstallError(msg))
            },
        }
    }
}

} // verus!
