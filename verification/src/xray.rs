//! Types of the packet-timing harness: which adapter runs, what kind of
//! test, the per-packet timestamp record, and the paths its artifacts are
//! written to.

use vstd::prelude::*;
use vstd::string::{StringExecFns, StringSliceAdditionalSpecFns};
use crate::packets::{spec_le_value, read_u64_le};
use crate::textfmt::{u64_to_dec, ascii_to_string, spec_dec_digits};

verus! {

/// Which WireGuard adapter a run drives.
#[derive(Clone, Copy, Debug, PartialEq, Eq, Structural)]
pub enum Wg {
    NepTUN,
    LinuxNative,
    WireguardGo,
    BoringTun,
}

impl Wg {
    /// The name the command line and file names use.
    pub fn name(&self) -> (r: &'static str)
        ensures
            (match self {
                Wg::NepTUN => r@ == "neptun"@,
                Wg::LinuxNative => r@ == "native"@,
                Wg::WireguardGo => r@ == "wggo"@,
                Wg::BoringTun => r@ == "boringtun"@,
            }),
    {
        match self {
            Wg::NepTUN => "neptun",
            Wg::LinuxNative => "native",
            Wg::WireguardGo => "wggo",
            Wg::BoringTun => "boringtun",
        }
    }
}

/// Parse an adapter name.
pub fn parse_wg(s: &str) -> (r: Option<Wg>)
    ensures
        r == (if s.spec_bytes() == "neptun".spec_bytes() {
            Some(Wg::NepTUN)
        } else if s.spec_bytes() == "native".spec_bytes() {
            Some(Wg::LinuxNative)
        } else if s.spec_bytes() == "wggo".spec_bytes() {
            Some(Wg::WireguardGo)
        } else if s.spec_bytes() == "boringtun".spec_bytes() {
            Some(Wg::BoringTun)
        } else {
            None::<Wg>
        }),
{
    let b = s.as_bytes();
    if crate::textfmt::bytes_eq(b, "neptun".as_bytes()) {
        Some(Wg::NepTUN)
    } else if crate::textfmt::bytes_eq(b, "native".as_bytes()) {
        Some(Wg::LinuxNative)
    } else if crate::textfmt::bytes_eq(b, "wggo".as_bytes()) {
        Some(Wg::WireguardGo)
    } else if crate::textfmt::bytes_eq(b, "boringtun".as_bytes()) {
        Some(Wg::BoringTun)
    } else {
        None
    }
}

/// What kind of traffic a run sends.
#[derive(Clone, Copy, Debug, PartialEq, Eq, Structural)]
pub enum TestType {
    Crypto,
    Plaintext,
}

impl TestType {
    pub fn name(&self) -> (r: &'static str)
        ensures
            (match self {
                TestType::Crypto => r@ == "crypto"@,
                TestType::Plaintext => r@ == "plaintext"@,
            }),
    {
        match self {
            TestType::Crypto => "crypto",
            TestType::Plaintext => "plaintext",
        }
    }
}

/// Parse a test-type name.
pub fn parse_test_type(s: &str) -> (r: Option<TestType>)
    ensures
        r == (if s.spec_bytes() == "crypto".spec_bytes() {
            Some(TestType::Crypto)
        } else if s.spec_bytes() == "plaintext".spec_bytes() {
            Some(TestType::Plaintext)
        } else {
            None::<TestType>
        }),
{
    let b = s.as_bytes();
    if crate::textfmt::bytes_eq(b, "crypto".as_bytes()) {
        Some(TestType::Crypto)
    } else if crate::textfmt::bytes_eq(b, "plaintext".as_bytes()) {
        Some(TestType::Plaintext)
    } else {
        None
    }
}

/// What a test packet carried when it was sent.
#[derive(Clone, Copy, Debug)]
pub enum SendType {
    Plaintext,
    HandshakeInitiation,
    HandshakeResponse,
    Data,
    Nothing,
}

/// What a received datagram turned out to be.
#[derive(Clone, Copy, Debug)]
pub enum RecvType {
    HandshakeInitiation,
    HandshakeResponse,
    Data { length: usize },
}

/// One tracked test packet. A send index is not stored: packets are
/// appended in send order, so the position is the index.
#[derive(Clone, Copy, Debug)]
pub struct Packet {
    pub recv_index: Option<u64>,
    pub send_ts: u128,
    pub pre_wg_ts: Option<u128>,
    pub post_wg_ts: Option<u128>,
    pub recv_ts: Option<u128>,
}

impl Packet {
    pub fn new(send_ts: u128) -> (r: Self)
        ensures
            r.send_ts == send_ts,
            r.recv_index is None,
            r.pre_wg_ts is None,
            r.post_wg_ts is None,
            r.recv_ts is None,
    {
        Packet { recv_index: None, send_ts, pre_wg_ts: None, post_wg_ts: None, recv_ts: None }
    }

    /// Bytes of one sent payload: the index and the timestamp.
    pub fn send_size() -> (r: usize)
        ensures
            r == 24,
    {
        8 + 16
    }

    /// Bytes of the index field.
    pub fn index_size() -> (r: usize)
        ensures
            r == 8,
    {
        8
    }

    /// Bytes of the timestamp field.
    pub fn ts_size() -> (r: usize)
        ensures
            r == 16,
    {
        16
    }
}

/// Read the send index from the front of a test payload.
pub fn extract_send_index(bytes: &[u8]) -> (r: u64)
    requires
        bytes@.len() >= 8,
    ensures
        r == spec_le_value(bytes@, 0, 8),
{
    read_u64_le(bytes, 0)
}

/// The command-line options of a run.
pub struct CliArgs {
    pub wg: Wg,
    pub test_type: TestType,
    pub packet_count: usize,
    pub csv_path: Option<String>,
    pub pcap_path: Option<String>,
}

impl CliArgs {
    /// The CSV output path: as given, or derived from the run options.
    pub fn csv_path(&self) -> (r: String)
        ensures
            (match self.csv_path {
                Some(p) => r@ == p@,
                None => r@ == "results/xray_"@ + self.wg.spec_name() + "_"@
                    + self.test_type.spec_name() + "_"@ + spec_dec_chars(self.packet_count as nat)
                    + ".csv"@,
            }),
    {
        match &self.csv_path {
            Some(p) => p.clone(),
            None => base_run_name("results/xray_", self.wg, self.test_type, self.packet_count,
                ".csv"),
        }
    }

    /// The packet-capture output path: as given, or derived.
    pub fn pcap_path(&self) -> (r: String)
        ensures
            (match self.pcap_path {
                Some(p) => r@ == p@,
                None => r@ == "results/xray_"@ + self.wg.spec_name() + "_"@
                    + self.test_type.spec_name() + "_"@ + spec_dec_chars(self.packet_count as nat)
                    + ".pcap"@,
            }),
    {
        match &self.pcap_path {
            Some(p) => p.clone(),
            None => base_run_name("results/xray_", self.wg, self.test_type, self.packet_count,
                ".pcap"),
        }
    }
}

impl Wg {
    /// The adapter name as characters.
    pub open spec fn spec_name(self) -> Seq<char> {
        match self {
            Wg::NepTUN => "neptun"@,
            Wg::LinuxNative => "native"@,
            Wg::WireguardGo => "wggo"@,
            Wg::BoringTun => "boringtun"@,
        }
    }
}

impl TestType {
    /// The test-type name as characters.
    pub open spec fn spec_name(self) -> Seq<char> {
        match self {
            TestType::Crypto => "crypto"@,
            TestType::Plaintext => "plaintext"@,
        }
    }
}

/// The decimal digits of a number, as characters.
pub open spec fn spec_dec_chars(n: nat) -> Seq<char> {
    spec_dec_digits(n).map_values(|b: u8| b as char)
}

/// Render a number in decimal as a string.
pub fn dec_string(n: u64) -> (r: String)
    ensures
        r@ == spec_dec_chars(n as nat),
{
    let digits = u64_to_dec(n);
    proof {
        lemma_dec_digits_ascii(n as nat);
    }
    let r = ascii_to_string(&digits);
    proof {
        assert(r@ =~= spec_dec_chars(n as nat));
    }
    r
}

/// Decimal digits are ASCII.
proof fn lemma_dec_digits_ascii(n: nat)
    ensures
        forall|i: int|
            0 <= i < spec_dec_digits(n).len() ==> (#[trigger] spec_dec_digits(n)[i]) < 128,
    decreases n,
{
    if n < 10 {
        assert(spec_dec_digits(n) =~= seq![(48 + n) as u8]);
    } else {
        lemma_dec_digits_ascii(n / 10);
        let prefix = spec_dec_digits(n / 10);
        assert forall|i: int| 0 <= i < spec_dec_digits(n).len() implies (
        #[trigger] spec_dec_digits(n)[i]) < 128 by {
            if i < prefix.len() {
                assert(spec_dec_digits(n)[i] == prefix[i]);
            } else {
                assert(spec_dec_digits(n)[i] == (48 + n % 10) as u8);
            }
        }
    }
}

/// "prefix" + wg + "_" + test type + "_" + count + "suffix".
fn base_run_name(prefix: &str, wg: Wg, test_type: TestType, packet_count: usize, suffix: &str) -> (
    r: String)
    ensures
        r@ == prefix@ + wg.spec_name() + "_"@ + test_type.spec_name() + "_"@ + spec_dec_chars(
            packet_count as nat,
        ) + suffix@,
{
    let mut out = String::from_str(prefix);
    out.append(wg.name());
    out.append("_");
    out.append(test_type.name());
    out.append("_");
    let count = dec_string(packet_count as u64);
    out.append(count.as_str());
    out.append(suffix);
    out
}

/// Builder of the artifact paths of one run.
pub struct PathGenerator {
    pub base_dir: String,
    pub base_file_name: String,
}

impl PathGenerator {
    /// A generator rooted at the project directory.
    pub fn new(wg: Wg, test_type: TestType, packet_count: usize, base_dir: String) -> (r: Self)
        ensures
            r.base_dir@ == base_dir@,
            r.base_file_name@ == "xray_"@ + wg.spec_name() + "_"@ + test_type.spec_name() + "_"@
                + spec_dec_chars(packet_count as nat),
    {
        let base_file_name = base_run_name("xray_", wg, test_type, packet_count, "");
        proof {
            reveal_strlit("");
            assert(base_file_name@ =~= "xray_"@ + wg.spec_name() + "_"@ + test_type.spec_name()
                + "_"@ + spec_dec_chars(packet_count as nat));
        }
        PathGenerator { base_dir, base_file_name }
    }

    pub fn analyze_script(&self) -> (r: String)
        ensures
            r@ == self.base_dir@ + "/xray/analyze.py"@,
    {
        let mut out = self.base_dir.clone();
        out.append("/xray/analyze.py");
        out
    }

    pub fn results_dir(&self) -> (r: String)
        ensures
            r@ == self.base_dir@ + "/xray/results"@,
    {
        let mut out = self.base_dir.clone();
        out.append("/xray/results");
        out
    }

    pub fn binary_dir(&self) -> (r: String)
        ensures
            r@ == self.base_dir@ + "/target/release"@,
    {
        let mut out = self.base_dir.clone();
        out.append("/target/release");
        out
    }

    pub fn base(&self) -> (r: String)
        ensures
            r@ == self.base_dir@ + "/xray/results"@ + "/"@ + self.base_file_name@,
    {
        let mut out = self.results_dir();
        out.append("/");
        out.append(self.base_file_name.as_str());
        out
    }

    pub fn pcap(&self) -> (r: String)
        ensures
            r@ == self.base_dir@ + "/xray/results"@ + "/"@ + self.base_file_name@ + ".pcap"@,
    {
        let mut out = self.base();
        out.append(".pcap");
        out
    }

    pub fn csv(&self) -> (r: String)
        ensures
            r@ == self.base_dir@ + "/xray/results"@ + "/"@ + self.base_file_name@ + ".csv"@,
    {
        let mut out = self.base();
        out.append(".csv");
        out
    }

    pub fn png(&self) -> (r: String)
        ensures
            r@ == self.base_dir@ + "/xray/results"@ + "/"@ + self.base_file_name@ + ".png"@,
    {
        let mut out = self.base();
        out.append(".png");
        out
    }

    pub fn txt(&self) -> (r: String)
        ensures
            r@ == self.base_dir@ + "/xray/results"@ + "/"@ + self.base_file_name@ + ".txt"@,
    {
        let mut out = self.base();
        out.append(".txt");
        out
    }
}

} // verus!
