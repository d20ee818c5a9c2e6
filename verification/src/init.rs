//! The guest init's mount planning: which mount flags and which data
//! options a mount point's option list asks for. The mounting itself
//! is a system call and stays outside; this decides exactly what is
//! passed to it.
use vstd::prelude::*;

verus! {

/// A filesystem mount point.
pub struct MountPoint<'a> {
    pub device: &'a str,
    pub mount_path: &'a str,
    pub fs_type: &'a str,
    pub options: &'a [&'a str],
}

/// The mount flags an option list can ask for.
#[derive(Clone, Copy, Debug, PartialEq, Eq, Structural)]
pub struct MountFlags {
    pub nodev: bool,
    pub noexec: bool,
    pub nosuid: bool,
    pub ro: bool,
    pub noatime: bool,
}

/// Whether an option list names an option.
pub open spec fn has_option(opts: Seq<&str>, name: Seq<char>) -> bool {
    exists|i: int| 0 <= i < opts.len() && opts[i]@ == name
}

/// Whether an option carries a value, like a size or a mode.
pub open spec fn is_data_option(opt: Seq<char>) -> bool {
    exists|j: int| 0 <= j < opt.len() && opt[j] == '='
}

/// The options that carry values, in order.
pub open spec fn data_options(opts: Seq<&str>) -> Seq<Seq<char>>
    decreases opts.len(),
{
    if opts.len() == 0 {
        Seq::empty()
    } else {
        data_options(opts.drop_last()) + (if is_data_option(opts.last()@) {
            seq![opts.last()@]
        } else {
            Seq::empty()
        })
    }
}

/// The parts joined with commas, as the mount data string wants them.
pub open spec fn join_commas(parts: Seq<Seq<char>>) -> Seq<char>
    decreases parts.len(),
{
    if parts.len() == 0 {
        Seq::empty()
    } else if parts.len() == 1 {
        parts[0]
    } else {
        join_commas(parts.drop_last()) + seq![','] + parts.last()
    }
}

/// Whether a string holds a character.
fn str_has_char(s: &str, c: char) -> (r: bool)
    ensures
        r == exists|j: int| 0 <= j < s@.len() && s@[j] == c,
{
    let n = s.unicode_len();
    let mut j: usize = 0;
    while j < n
        invariant
            n == s@.len(),
            j <= n,
            forall|k: int| 0 <= k < j ==> s@[k] != c,
        decreases n - j,
    {
        if s.get_char(j) == c {
            return true;
        }
        j = j + 1;
    }
    false
}

/// Plan a mount: the flags the named options ask for, and the data
/// string of the value-carrying options, joined with commas, or
/// nothing when there are none. Unknown plain options are ignored.
pub fn plan_mount_options(options: &[&str]) -> (r: (MountFlags, Option<String>))
    ensures
        r.0 == (MountFlags {
            nodev: has_option(options@, "nodev"@),
            noexec: has_option(options@, "noexec"@),
            nosuid: has_option(options@, "nosuid"@),
            ro: has_option(options@, "ro"@),
            noatime: has_option(options@, "noatime"@),
        }),
        data_options(options@).len() == 0 ==> r.1 is None,
        data_options(options@).len() > 0 ==> (r.1 matches Some(d) && d@ == join_commas(
            data_options(options@),
        )),
{
    let n = options.len();
    let mut flags = MountFlags {
        nodev: false,
        noexec: false,
        nosuid: false,
        ro: false,
        noatime: false,
    };
    let mut data = String::new();
    let mut have_data = false;
    let mut i: usize = 0;
    proof {
        assert(options@.subrange(0, 0) =~= Seq::<&str>::empty());
    }
    while i < n
        invariant
            n == options@.len(),
            i <= n,
            flags.nodev == has_option(options@.subrange(0, i as int), "nodev"@),
            flags.noexec == has_option(options@.subrange(0, i as int), "noexec"@),
            flags.nosuid == has_option(options@.subrange(0, i as int), "nosuid"@),
            flags.ro == has_option(options@.subrange(0, i as int), "ro"@),
            flags.noatime == has_option(options@.subrange(0, i as int), "noatime"@),
            have_data == (data_options(options@.subrange(0, i as int)).len() > 0),
            have_data ==> data@ == join_commas(data_options(options@.subrange(0, i as int))),
            !have_data ==> data@ == Seq::<char>::empty(),
        decreases n - i,
    {
        let opt = options[i];
        let ghost pre = options@.subrange(0, i as int);
        let ghost cur = options@.subrange(0, i + 1);
        proof {
            assert(cur.drop_last() =~= pre);
            assert(cur.last() == options@[i as int]);
        }
        if crate::text::str_eq(opt, "nodev") {
            flags.nodev = true;
        }
        if crate::text::str_eq(opt, "noexec") {
            flags.noexec = true;
        }
        if crate::text::str_eq(opt, "nosuid") {
            flags.nosuid = true;
        }
        if crate::text::str_eq(opt, "ro") {
            flags.ro = true;
        }
        if crate::text::str_eq(opt, "noatime") {
            flags.noatime = true;
        }
        if str_has_char(opt, '=') {
            let ghost data0 = data@;
            let ghost had = have_data;
            if have_data {
                data.append(",");
            }
            data.append(opt);
            have_data = true;
            proof {
                reveal_strlit(",");
                assert(","@ =~= seq![',']);
                let dl = data_options(pre);
                let cl = data_options(cur);
                assert(cl =~= dl.push(opt@));
                assert(cl.drop_last() =~= dl);
                if had {
                    assert(cl.len() >= 2);
                    assert(data@ =~= data0 + seq![','] + opt@);
                    assert(join_commas(cl) == join_commas(dl) + seq![','] + cl.last());
                    assert(cl.last() == opt@);
                } else {
                    assert(data0.len() == 0);
                    assert(data@ =~= opt@);
                    assert(join_commas(cl) == cl[0]);
                    assert(cl[0] == opt@);
                }
            }
        }
        proof {
            lemma_option_step(options@, i as int, "nodev"@);
            lemma_option_step(options@, i as int, "noexec"@);
            lemma_option_step(options@, i as int, "nosuid"@);
            lemma_option_step(options@, i as int, "ro"@);
            lemma_option_step(options@, i as int, "noatime"@);
        }
        i = i + 1;
    }
    proof {
        assert(options@.subrange(0, n as int) =~= options@);
    }
    if have_data {
        (flags, Some(data))
    } else {
        (flags, None)
    }
}

/// Extending the scanned prefix by one option extends the option test
/// by exactly that option.
proof fn lemma_option_step(opts: Seq<&str>, i: int, name: Seq<char>)
    requires
        0 <= i < opts.len(),
    ensures
        has_option(opts.subrange(0, i + 1), name) == (has_option(opts.subrange(0, i), name)
            || opts[i]@ == name),
{
    let pre = opts.subrange(0, i);
    let cur = opts.subrange(0, i + 1);
    if has_option(pre, name) {
        let w = choose|k: int| 0 <= k < pre.len() && pre[k]@ == name;
        assert(cur[w]@ == name);
    }
    if opts[i]@ == name {
        assert(cur[i]@ == name);
    }
    if has_option(cur, name) {
        let w = choose|k: int| 0 <= k < cur.len() && cur[k]@ == name;
        if w < i {
            assert(pre[w]@ == name);
        }
    }
}

} // verus!
