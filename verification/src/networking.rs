//! Guest-side network configuration: reading the IP layout the
//! hypervisor passed on the kernel command line, and the one netmask
//! shape the guest accepts.
use crate::auth::starts_with;
use vstd::prelude::*;

verus! {

/// The static IP layout of the guest, as text fields of the kernel
/// command line's `ip=` entry.
pub struct IpConfig {
    pub address: String,
    pub gateway: String,
    pub netmask: String,
}

/// The first non-whitespace position at or after `i`, or the length.
pub open spec fn scan_nonspace(s: Seq<char>, i: int) -> int
    decreases s.len() - i,
{
    if i < 0 || i >= s.len() {
        s.len() as int
    } else if !crate::cloudconfig::is_space(s[i]) {
        i
    } else {
        scan_nonspace(s, i + 1)
    }
}

/// The first whitespace position at or after `i`, or the length.
pub open spec fn scan_space(s: Seq<char>, i: int) -> int
    decreases s.len() - i,
{
    if i < 0 || i >= s.len() {
        s.len() as int
    } else if crate::cloudconfig::is_space(s[i]) {
        i
    } else {
        scan_space(s, i + 1)
    }
}

/// `scan_nonspace` lands on the first non-whitespace character.
pub proof fn lemma_scan_nonspace(s: Seq<char>, i: int)
    requires
        0 <= i <= s.len(),
    ensures
        i <= scan_nonspace(s, i) <= s.len(),
        scan_nonspace(s, i) < s.len() ==> !crate::cloudconfig::is_space(s[scan_nonspace(s, i)]),
        forall|k: int| i <= k < scan_nonspace(s, i) ==> crate::cloudconfig::is_space(#[trigger] s[k]),
    decreases s.len() - i,
{
    if i < s.len() && crate::cloudconfig::is_space(s[i]) {
        lemma_scan_nonspace(s, i + 1);
    }
}

/// `scan_space` lands on the first whitespace character.
pub proof fn lemma_scan_space(s: Seq<char>, i: int)
    requires
        0 <= i <= s.len(),
    ensures
        i <= scan_space(s, i) <= s.len(),
        scan_space(s, i) < s.len() ==> crate::cloudconfig::is_space(s[scan_space(s, i)]),
        forall|k: int| i <= k < scan_space(s, i) ==> !crate::cloudconfig::is_space(#[trigger] s[k]),
    decreases s.len() - i,
{
    if i < s.len() && !crate::cloudconfig::is_space(s[i]) {
        lemma_scan_space(s, i + 1);
    }
}

/// The rest of the first whitespace-delimited token from position `i`
/// on that starts with `ip=`, the prefix dropped.
pub open spec fn first_ip_token_from(s: Seq<char>, i: int) -> Option<Seq<char>>
    recommends
        0 <= i <= s.len(),
    decreases s.len() - i + 1 when 0 <= i <= s.len()
    via first_ip_token_decreases
{
    let a = scan_nonspace(s, i);
    if a >= s.len() {
        None
    } else {
        let b = scan_space(s, a);
        let tok = s.subrange(a, b);
        if starts_with(tok, "ip="@) {
            Some(tok.subrange(3, tok.len() as int))
        } else {
            first_ip_token_from(s, b)
        }
    }
}

#[via_fn]
proof fn first_ip_token_decreases(s: Seq<char>, i: int) {
    lemma_scan_nonspace(s, i);
    let a = scan_nonspace(s, i);
    if a < s.len() {
        lemma_scan_space(s, a);
    }
}

/// The first colon at or after `i`, or the length.
pub open spec fn scan_colon(s: Seq<char>, i: int) -> int
    decreases s.len() - i,
{
    if i < 0 || i >= s.len() {
        s.len() as int
    } else if s[i] == ':' {
        i
    } else {
        scan_colon(s, i + 1)
    }
}

/// `scan_colon` lands on the first colon.
pub proof fn lemma_scan_colon(s: Seq<char>, i: int)
    requires
        0 <= i <= s.len(),
    ensures
        i <= scan_colon(s, i) <= s.len(),
        scan_colon(s, i) < s.len() ==> s[scan_colon(s, i)] == ':',
        forall|k: int| i <= k < scan_colon(s, i) ==> s[k] != ':',
    decreases s.len() - i,
{
    if i < s.len() && s[i] != ':' {
        lemma_scan_colon(s, i + 1);
    }
}

/// The colon-separated fields from position `i` on; empty fields are
/// kept, and there is always at least one field.
pub open spec fn split_colon_from(s: Seq<char>, i: int) -> Seq<Seq<char>>
    recommends
        0 <= i <= s.len(),
    decreases s.len() - i + 1 when 0 <= i <= s.len()
    via split_colon_decreases
{
    let k = scan_colon(s, i);
    if k == s.len() {
        seq![s.subrange(i, k)]
    } else {
        seq![s.subrange(i, k)] + split_colon_from(s, k + 1)
    }
}

#[via_fn]
proof fn split_colon_decreases(s: Seq<char>, i: int) {
    lemma_scan_colon(s, i);
}

/// The IP layout the kernel command line carries: the first `ip=`
/// token read as `address:server:gateway:netmask:...`, which must have
/// at least those four fields.
pub open spec fn spec_parse_ip(cmdline: Seq<char>) -> Option<(Seq<char>, Seq<char>, Seq<char>)> {
    match first_ip_token_from(cmdline, 0) {
        None => None,
        Some(cfg) => {
            let parts = split_colon_from(cfg, 0);
            if parts.len() >= 4 {
                Some((parts[0], parts[2], parts[3]))
            } else {
                None
            }
        },
    }
}

/// Leading whitespace up to `a` and none at `a` pin `scan_nonspace`.
proof fn lemma_scan_nonspace_pin(s: Seq<char>, i: int, a: int)
    requires
        0 <= i <= a <= s.len(),
        forall|k: int| i <= k < a ==> crate::cloudconfig::is_space(#[trigger] s[k]),
        a < s.len() ==> !crate::cloudconfig::is_space(s[a]),
    ensures
        scan_nonspace(s, i) == a,
    decreases a - i,
{
    if i < a {
        lemma_scan_nonspace_pin(s, i + 1, a);
    }
}

/// Non-whitespace up to `b` and whitespace (or the end) at `b` pin
/// `scan_space`.
proof fn lemma_scan_space_pin(s: Seq<char>, i: int, b: int)
    requires
        0 <= i <= b <= s.len(),
        forall|k: int| i <= k < b ==> !crate::cloudconfig::is_space(#[trigger] s[k]),
        b < s.len() ==> crate::cloudconfig::is_space(s[b]),
    ensures
        scan_space(s, i) == b,
    decreases b - i,
{
    if i < b {
        lemma_scan_space_pin(s, i + 1, b);
    }
}

/// No colon up to `k` and a colon (or the end) at `k` pin `scan_colon`.
proof fn lemma_scan_colon_pin(s: Seq<char>, i: int, k: int)
    requires
        0 <= i <= k <= s.len(),
        forall|j: int| i <= j < k ==> s[j] != ':',
        k < s.len() ==> s[k] == ':',
    ensures
        scan_colon(s, i) == k,
    decreases k - i,
{
    if i < k {
        lemma_scan_colon_pin(s, i + 1, k);
    }
}

/// Find the `ip=` token of the command line from position `i` on.
fn find_ip_token_from(chars: &Vec<char>, i: usize) -> (r: Option<Vec<char>>)
    requires
        i <= chars@.len(),
    ensures
        match r {
            Some(tok) => first_ip_token_from(chars@, i as int) == Some(tok@),
            None => first_ip_token_from(chars@, i as int) is None,
        },
    decreases chars@.len() - i,
{
    let n = chars.len();
    let mut a: usize = i;
    while a < n && crate::cloudconfig::is_space_exec(chars[a])
        invariant
            i <= a <= n,
            n == chars@.len(),
            forall|k: int| i <= k < a ==> crate::cloudconfig::is_space(#[trigger] chars@[k]),
        decreases n - a,
    {
        a = a + 1;
    }
    proof {
        lemma_scan_nonspace_pin(chars@, i as int, a as int);
    }
    if a >= n {
        return None;
    }
    let mut b: usize = a;
    while b < n && !crate::cloudconfig::is_space_exec(chars[b])
        invariant
            a <= b <= n,
            n == chars@.len(),
            forall|k: int| a <= k < b ==> !crate::cloudconfig::is_space(#[trigger] chars@[k]),
        decreases n - b,
    {
        b = b + 1;
    }
    proof {
        lemma_scan_space_pin(chars@, a as int, b as int);
    }
    let ghost tok = chars@.subrange(a as int, b as int);
    proof {
        reveal_strlit("ip=");
        assert("ip="@.len() == 3);
        assert("ip="@[0] == 'i' && "ip="@[1] == 'p' && "ip="@[2] == '=');
        if b - a >= 3 {
            assert(tok.subrange(0, 3)[0] == chars@[a as int]);
            assert(tok.subrange(0, 3)[1] == chars@[a + 1]);
            assert(tok.subrange(0, 3)[2] == chars@[a + 2]);
        }
    }
    if b - a >= 3 && chars[a] == 'i' && chars[a + 1] == 'p' && chars[a + 2] == '=' {
        proof {
            assert(tok.subrange(0, 3) =~= "ip="@);
            assert(starts_with(tok, "ip="@));
        }
        let rest = crate::cloudconfig::copy_range(chars, a + 3, b);
        proof {
            assert(rest@ =~= tok.subrange(3, tok.len() as int));
        }
        Some(rest)
    } else {
        proof {
            if b - a >= 3 {
                assert(tok.subrange(0, 3) != "ip="@);
            }
            assert(!starts_with(tok, "ip="@));
            assert(b > a);
        }
        find_ip_token_from(chars, b)
    }
}

/// The views of a sequence of character vectors.
pub open spec fn chunk_views(s: Seq<Vec<char>>) -> Seq<Seq<char>> {
    s.map_values(|v: Vec<char>| v@)
}

/// Split a token at its colons, keeping empty fields.
fn split_colon(v: &Vec<char>) -> (r: Vec<Vec<char>>)
    ensures
        chunk_views(r@) == split_colon_from(v@, 0),
{
    let n = v.len();
    let mut out: Vec<Vec<char>> = Vec::new();
    let mut start: usize = 0;
    loop
        invariant_except_break
            start <= n,
            n == v@.len(),
            chunk_views(out@) + split_colon_from(v@, start as int) =~= split_colon_from(v@, 0),
        ensures
            chunk_views(out@) == split_colon_from(v@, 0),
        decreases n - start + 1,
    {
        let mut k: usize = start;
        while k < n && v[k] != ':'
            invariant
                start <= k <= n,
                n == v@.len(),
                forall|j: int| start <= j < k ==> v@[j] != ':',
            decreases n - k,
        {
            k = k + 1;
        }
        proof {
            lemma_scan_colon_pin(v@, start as int, k as int);
        }
        out.push(crate::cloudconfig::copy_range(v, start, k));
        proof {
            let rest = split_colon_from(v@, start as int);
            assert(rest[0] == v@.subrange(start as int, k as int));
            if k < n {
                assert(rest =~= seq![rest[0]] + split_colon_from(v@, k + 1));
            } else {
                assert(rest =~= seq![rest[0]]);
            }
            assert(chunk_views(out@) =~= chunk_views(out@.drop_last()) + seq![out@.last()@]);
        }
        if k == n {
            break ;
        }
        start = k + 1;
    }
    out
}

/// Read the IP layout from the kernel command line: the first `ip=`
/// token, split at colons into at least
/// `address:server:gateway:netmask`.
pub fn parse_ip_from_cmdline(cmdline: &str) -> (r: Option<IpConfig>)
    ensures
        match r {
            Some(c) => (spec_parse_ip(cmdline@) matches Some(p) && c.address@ == p.0 && c.gateway@
                == p.1 && c.netmask@ == p.2),
            None => spec_parse_ip(cmdline@) is None,
        },
{
    let chars = crate::cloudconfig::str_to_chars(cmdline);
    match find_ip_token_from(&chars, 0) {
        None => None,
        Some(cfg) => {
            let parts = split_colon(&cfg);
            proof {
                assert(chunk_views(parts@).len() == parts@.len());
            }
            if parts.len() >= 4 {
                proof {
                    assert(chunk_views(parts@)[0] == parts@[0]@);
                    assert(chunk_views(parts@)[2] == parts@[2]@);
                    assert(chunk_views(parts@)[3] == parts@[3]@);
                }
                Some(
                    IpConfig {
                        address: crate::cloudconfig::chars_to_string(&parts[0]),
                        gateway: crate::cloudconfig::chars_to_string(&parts[2]),
                        netmask: crate::cloudconfig::chars_to_string(&parts[3]),
                    },
                )
            } else {
                None
            }
        },
    }
}

/// The one netmask the guest accepts, and the prefix length it means.
pub fn netmask_prefix(netmask: &str) -> (r: Option<u8>)
    ensures
        netmask@ == "255.255.255.0"@ ==> r == Some(24u8),
        netmask@ != "255.255.255.0"@ ==> r is None,
{
    if crate::text::str_eq(netmask, "255.255.255.0") {
        Some(24)
    } else {
        None
    }
}


/// The kernel command line the host boots a guest with: the console
/// and root choices, then the `ip=` layout
/// `address::gateway:netmask::eth0:off` the guest's parser reads.
pub open spec fn ip_cmdline_text(addr: Seq<char>, gw: Seq<char>, mask: Seq<char>) -> Seq<char> {
    "console=hvc0 rootfstype=virtiofs root=rootfs ip="@ + addr + "::"@ + gw + ":"@ + mask
        + "::eth0:off"@
}

/// Render the guest kernel command line for a static IP layout.
pub fn render_ip_cmdline(address: &str, gateway: &str, netmask: &str) -> (r: String)
    ensures
        r@ == ip_cmdline_text(address@, gateway@, netmask@),
{
    String::from_str("console=hvc0 rootfstype=virtiofs root=rootfs ip=").concat(address).concat(
        "::",
    ).concat(gateway).concat(":").concat(netmask).concat("::eth0:off")
}

/// Splitting at colons from `i` is splitting the tail that starts at
/// `i`.
proof fn lemma_split_colon_shift(s: Seq<char>, i: int)
    requires
        0 <= i <= s.len(),
    ensures
        split_colon_from(s, i) == split_colon_from(s.subrange(i, s.len() as int), 0),
    decreases s.len() - i + 1,
{
    lemma_scan_colon(s, i);
    let tail = s.subrange(i, s.len() as int);
    let k = scan_colon(s, i);
    lemma_scan_colon_pin(tail, 0, k - i);
    assert(tail.subrange(0, k - i) =~= s.subrange(i, k));
    if k == s.len() {
    } else {
        lemma_split_colon_shift(s, k + 1);
        assert(tail.subrange(k - i + 1, tail.len() as int) =~= s.subrange(k + 1, s.len() as int));
        lemma_split_colon_shift(tail, k - i + 1);
    }
}

/// One colon-terminated field at the front splits off exactly.
proof fn lemma_split_colon_one(field: Seq<char>, rest: Seq<char>)
    requires
        forall|k: int| 0 <= k < field.len() ==> field[k] != ':',
    ensures
        split_colon_from(field + seq![':'] + rest, 0) == seq![field] + split_colon_from(rest, 0),
{
    let s = field + seq![':'] + rest;
    lemma_scan_colon_pin(s, 0, field.len() as int);
    assert(s.subrange(0, field.len() as int) =~= field);
    assert(scan_colon(s, 0) < s.len());
    lemma_split_colon_shift(s, field.len() as int + 1);
    assert(s.subrange(field.len() as int + 1, s.len() as int) =~= rest);
}

/// A colon-free tail is one field.
proof fn lemma_split_colon_last(s: Seq<char>)
    requires
        forall|k: int| 0 <= k < s.len() ==> s[k] != ':',
    ensures
        split_colon_from(s, 0) =~= seq![s],
{
    lemma_scan_colon_pin(s, 0, s.len() as int);
    assert(s.subrange(0, s.len() as int) =~= s);
}

/// Round trip of the boot argument: the command line the host renders
/// for a static layout reads back as exactly that layout, as long as
/// the three fields carry no whitespace and no colon — true of every
/// dotted address and netmask.
pub proof fn lemma_ip_cmdline_roundtrip(addr: Seq<char>, gw: Seq<char>, mask: Seq<char>)
    requires
        forall|k: int|
            0 <= k < addr.len() ==> !crate::cloudconfig::is_space(#[trigger] addr[k]) && addr[k]
                != ':',
        forall|k: int|
            0 <= k < gw.len() ==> !crate::cloudconfig::is_space(#[trigger] gw[k]) && gw[k] != ':',
        forall|k: int|
            0 <= k < mask.len() ==> !crate::cloudconfig::is_space(#[trigger] mask[k]) && mask[k]
                != ':',
    ensures
        spec_parse_ip(ip_cmdline_text(addr, gw, mask)) == Some((addr, gw, mask)),
{
    reveal_strlit("console=hvc0 rootfstype=virtiofs root=rootfs ip=");
    reveal_strlit("::");
    reveal_strlit(":");
    reveal_strlit("::eth0:off");
    reveal_strlit("ip=");
    reveal_strlit("eth0");
    reveal_strlit("off");
    let p = "console=hvc0 rootfstype=virtiofs root=rootfs ip="@;
    assert(p.len() == 48);
    let s = ip_cmdline_text(addr, gw, mask);
    let cfg = addr + "::"@ + gw + ":"@ + mask + "::eth0:off"@;
    assert(s =~= p + cfg);
    assert(s.len() == 48 + cfg.len());
    assert forall|k: int| 0 <= k < 48 implies s[k] == p[k] by {}
    assert forall|k: int| 48 <= k < s.len() implies s[k] == cfg[k - 48] by {}
    // the configuration text itself holds no whitespace
    assert("::"@.len() == 2 && "::"@[0] == ':' && "::"@[1] == ':');
    assert(":"@.len() == 1 && ":"@[0] == ':');
    assert("::eth0:off"@.len() == 10);
    assert forall|k: int| 0 <= k < cfg.len() implies !crate::cloudconfig::is_space(
        #[trigger] cfg[k],
    ) by {
        let a = addr.len() as int;
        let g = gw.len() as int;
        let m = mask.len() as int;
        if k < a {
            assert(cfg[k] == addr[k]);
        } else if k < a + 2 {
            assert(cfg[k] == "::"@[k - a]);
        } else if k < a + 2 + g {
            assert(cfg[k] == gw[k - a - 2]);
        } else if k < a + 3 + g {
            assert(cfg[k] == ":"@[k - a - 2 - g]);
        } else if k < a + 3 + g + m {
            assert(cfg[k] == mask[k - a - 3 - g]);
        } else {
            assert(cfg[k] == "::eth0:off"@[k - a - 3 - g - m]);
        }
    }
    // the first three tokens are not the ip= argument
    lemma_scan_nonspace_pin(s, 0, 0);
    lemma_scan_space_pin(s, 0, 12);
    let t0 = s.subrange(0, 12);
    assert(t0[0] == 'c');
    assert(t0.subrange(0, 3)[0] == t0[0]);
    assert(!starts_with(t0, "ip="@));
    assert(first_ip_token_from(s, 0) == first_ip_token_from(s, 12));
    lemma_scan_nonspace_pin(s, 12, 13);
    lemma_scan_space_pin(s, 13, 32);
    let t1 = s.subrange(13, 32);
    assert(t1[0] == 'r');
    assert(t1.subrange(0, 3)[0] == t1[0]);
    assert(!starts_with(t1, "ip="@));
    assert(first_ip_token_from(s, 12) == first_ip_token_from(s, 32));
    lemma_scan_nonspace_pin(s, 32, 33);
    lemma_scan_space_pin(s, 33, 44);
    let t2 = s.subrange(33, 44);
    assert(t2[0] == 'r');
    assert(t2.subrange(0, 3)[0] == t2[0]);
    assert(!starts_with(t2, "ip="@));
    assert(first_ip_token_from(s, 32) == first_ip_token_from(s, 44));
    // the fourth token is the whole ip= argument, to the end
    lemma_scan_nonspace_pin(s, 44, 45);
    lemma_scan_space_pin(s, 45, s.len() as int);
    let tok = s.subrange(45, s.len() as int);
    assert(tok.len() == 3 + cfg.len());
    assert(tok[0] == 'i' && tok[1] == 'p' && tok[2] == '=');
    assert(tok.subrange(0, 3) =~= "ip="@);
    assert(starts_with(tok, "ip="@));
    assert(tok.subrange(3, tok.len() as int) =~= cfg);
    assert(first_ip_token_from(s, 44) == Some(cfg));
    // the colon-separated fields of the argument
    let rest1 = Seq::<char>::empty() + seq![':'] + (gw + seq![':'] + (mask + seq![':'] + (
    Seq::<char>::empty() + seq![':'] + ("eth0"@ + seq![':'] + "off"@))));
    assert(cfg =~= addr + seq![':'] + rest1);
    lemma_split_colon_one(addr, rest1);
    let rest2 = gw + seq![':'] + (mask + seq![':'] + (Seq::<char>::empty() + seq![':'] + ("eth0"@
        + seq![':'] + "off"@)));
    assert(rest1 =~= Seq::<char>::empty() + seq![':'] + rest2);
    lemma_split_colon_one(Seq::<char>::empty(), rest2);
    let rest3 = mask + seq![':'] + (Seq::<char>::empty() + seq![':'] + ("eth0"@ + seq![':']
        + "off"@));
    lemma_split_colon_one(gw, rest3);
    let rest4 = Seq::<char>::empty() + seq![':'] + ("eth0"@ + seq![':'] + "off"@);
    lemma_split_colon_one(mask, rest4);
    let rest5 = "eth0"@ + seq![':'] + "off"@;
    assert(rest4 =~= Seq::<char>::empty() + seq![':'] + rest5);
    lemma_split_colon_one(Seq::<char>::empty(), rest5);
    assert("eth0"@.len() == 4);
    assert forall|k: int| 0 <= k < "eth0"@.len() implies "eth0"@[k] != ':' by {}
    lemma_split_colon_one("eth0"@, "off"@);
    assert forall|k: int| 0 <= k < "off"@.len() implies "off"@[k] != ':' by {}
    lemma_split_colon_last("off"@);
    let parts = split_colon_from(cfg, 0);
    assert(parts =~= seq![
        addr,
        Seq::<char>::empty(),
        gw,
        mask,
        Seq::<char>::empty(),
        "eth0"@,
        "off"@,
    ]);
    assert(parts.len() == 7);
    assert(parts[0] == addr && parts[2] == gw && parts[3] == mask);
}

} // verus!
