use vstd::prelude::*;

verus! {

/// Why a command line was refused.
#[derive(Debug)]
pub enum ConfigError {
    /// A flag stood last, with no value after it.
    MissingValue(String),
    /// An argument that the command does not know.
    UnknownOption(String),
    /// A flag that the command needs was not given, or was given empty.
    MissingRequired(String),
}

/// The meaning of a `ConfigError`.
pub enum ConfigFault {
    MissingValue(Seq<char>),
    UnknownOption(Seq<char>),
    MissingRequired(Seq<char>),
}

impl ConfigError {
    pub open spec fn fault(&self) -> ConfigFault {
        match self {
            ConfigError::MissingValue(s) => ConfigFault::MissingValue(s@),
            ConfigError::UnknownOption(s) => ConfigFault::UnknownOption(s@),
            ConfigError::MissingRequired(s) => ConfigFault::MissingRequired(s@),
        }
    }
}

pub open spec fn texts(v: Seq<String>) -> Seq<Seq<char>> {
    v.map_values(|s: String| s@)
}

pub open spec fn opt_text(o: Option<String>) -> Option<Seq<char>> {
    match o {
        Some(s) => Some(s@),
        None => None,
    }
}

/// The values after `flag` is set to `value`.
pub open spec fn set_flag(
    flags: Seq<Seq<char>>,
    vals: Seq<Option<Seq<char>>>,
    flag: Seq<char>,
    value: Seq<char>,
) -> Seq<Option<Seq<char>>> {
    Seq::new(vals.len(), |j: int| if flags[j] == flag { Some(value) } else { vals[j] })
}

/// Reads `args` from position `i` on as `--flag value` pairs over the known
/// `flags`, the value of each flag at its position in `vals`, a later pair
/// overriding an earlier one. An unknown argument, or a flag with no value
/// after it, stops the reading with that fault.
pub open spec fn scan(
    args: Seq<Seq<char>>,
    flags: Seq<Seq<char>>,
    i: int,
    vals: Seq<Option<Seq<char>>>,
) -> Result<Seq<Option<Seq<char>>>, ConfigFault>
    decreases args.len() - i,
{
    if i < 0 || i >= args.len() {
        Ok(vals)
    } else if !flags.contains(args[i]) {
        Err(ConfigFault::UnknownOption(args[i]))
    } else if i + 1 >= args.len() {
        Err(ConfigFault::MissingValue(args[i]))
    } else {
        scan(args, flags, i + 2, set_flag(flags, vals, args[i], args[i + 1]))
    }
}

/// The values of the known flags in a command line, none set at the start.
pub open spec fn scan_all(args: Seq<Seq<char>>, flags: Seq<Seq<char>>) -> Result<Seq<Option<Seq<char>>>, ConfigFault> {
    scan(args, flags, 0, Seq::new(flags.len(), |j: int| None))
}

fn find_flag(flags: &Vec<String>, a: &String) -> (r: Option<usize>)
    ensures
        r is None <==> !texts(flags@).contains(a@),
        r matches Some(j) ==> j < flags@.len() && flags@[j as int]@ == a@,
{
    let mut j: usize = 0;
    while j < flags.len()
        invariant
            j <= flags@.len(),
            forall|k: int| 0 <= k < j ==> flags@[k]@ != a@,
        decreases flags@.len() - j,
    {
        if flags[j] == *a {
            assert(texts(flags@)[j as int] == a@);
            return Some(j);
        }
        j = j + 1;
    }
    proof {
        if texts(flags@).contains(a@) {
            let k = choose|k: int| 0 <= k < texts(flags@).len() && texts(flags@)[k] == a@;
            assert(flags@[k]@ == a@);
        }
    }
    None
}

/// Reads a command line as `--flag value` pairs over the known flags: the value
/// of each flag, by the flag's position, or the first fault met.
pub fn scan_options(args: &Vec<String>, flags: &Vec<String>) -> (r: Result<Vec<Option<String>>, ConfigError>)
    ensures
        r matches Ok(v) ==> v@.len() == flags@.len(),
        match r {
            Ok(v) => scan_all(texts(args@), texts(flags@)) == Ok::<_, ConfigFault>(v@.map_values(|o: Option<String>| opt_text(o))),
            Err(e) => scan_all(texts(args@), texts(flags@)) == Err::<Seq<Option<Seq<char>>>, _>(e.fault()),
        },
{
    let ghost a = texts(args@);
    let ghost f = texts(flags@);
    let mut vals: Vec<Option<String>> = Vec::new();
    let mut k: usize = 0;
    while k < flags.len()
        invariant
            k <= flags@.len(),
            vals@.len() == k,
            forall|j: int| 0 <= j < k ==> vals@[j] is None,
        decreases flags@.len() - k,
    {
        vals.push(None);
        k = k + 1;
    }
    assert(vals@.map_values(|o: Option<String>| opt_text(o)) =~= Seq::new(f.len(), |j: int| None::<Seq<char>>));
    let mut i: usize = 0;
    while i < args.len()
        invariant
            a == texts(args@),
            f == texts(flags@),
            vals@.len() == flags@.len(),
            scan_all(a, f) == scan(a, f, i as int, vals@.map_values(|o: Option<String>| opt_text(o))),
        decreases args@.len() - i,
    {
        let ghost before = vals@.map_values(|o: Option<String>| opt_text(o));
        match find_flag(flags, &args[i]) {
            None => {
                return Err(ConfigError::UnknownOption(args[i].clone()));
            },
            Some(_) => {},
        }
        if i + 1 >= args.len() {
            return Err(ConfigError::MissingValue(args[i].clone()));
        }
        let value_at: usize = i + 1;
        let mut j: usize = 0;
        while j < flags.len()
            invariant
                value_at == i + 1,
                j <= flags@.len(),
                vals@.len() == flags@.len(),
                i + 1 < args@.len(),
                before.len() == flags@.len(),
                forall|m: int| 0 <= m < j ==> opt_text(#[trigger] vals@[m]) == set_flag(f, before, a[i as int], a[i + 1])[m],
                forall|m: int| j <= m < flags@.len() ==> opt_text(#[trigger] vals@[m]) == before[m],
                a == texts(args@),
                f == texts(flags@),
            decreases flags@.len() - j,
        {
            if flags[j] == args[i] {
                vals.set(j, Some(args[value_at].clone()));
            }
            j = j + 1;
        }
        assert(vals@.map_values(|o: Option<String>| opt_text(o)) =~= set_flag(f, before, a[i as int], a[i + 1]));
        i = i + 2;
    }
    Ok(vals)
}

/// The value given for the flag at position `j`, or `d` where none was given.
pub open spec fn value_or(v: Seq<Option<Seq<char>>>, j: int, d: Seq<char>) -> Seq<char> {
    match v[j] {
        Some(s) => s,
        None => d,
    }
}

fn value_of(vals: &Vec<Option<String>>, j: usize, default: &str) -> (r: String)
    requires
        j < vals@.len(),
    ensures
        r@ == value_or(vals@.map_values(|o: Option<String>| opt_text(o)), j as int, default@),
{
    match &vals[j] {
        Some(s) => s.clone(),
        None => default.to_owned(),
    }
}

/// What a backup run is told.
#[derive(Clone, Debug)]
pub struct BackupOptions {
    /// The live directory to snapshot.
    pub world_dir: String,
    /// The backup root, one generation per subdirectory.
    pub backup_dir: String,
    /// The session of the live process to quiesce; empty where none was given.
    pub server_session: String,
}

pub open spec fn backup_flags() -> Seq<Seq<char>> {
    seq!["--world-dir"@, "--backup-dir"@, "--server-session"@]
}

/// Reads the arguments of `backup`: `--world-dir` and `--backup-dir` are
/// needed and may not be empty, `--server-session` may be left out.
pub fn parse_backup_args(args: &Vec<String>) -> (r: Result<BackupOptions, ConfigError>)
    ensures
        scan_all(texts(args@), backup_flags()) matches Err(f) ==> (r matches Err(e) && e.fault() == f),
        scan_all(texts(args@), backup_flags()) matches Ok(v) ==> {
            let world = value_or(v, 0, Seq::empty());
            let backup = value_or(v, 1, Seq::empty());
            &&& world.len() == 0 ==> (r matches Err(e) && e.fault() == ConfigFault::MissingRequired("--world-dir"@))
            &&& world.len() > 0 && backup.len() == 0 ==> (r matches Err(e) && e.fault()
                == ConfigFault::MissingRequired("--backup-dir"@))
            &&& world.len() > 0 && backup.len() > 0 ==> (r matches Ok(o) && o.world_dir@ == world
                && o.backup_dir@ == backup && o.server_session@ == value_or(v, 2, Seq::empty()))
        },
{
    let flags = vec!["--world-dir".to_owned(), "--backup-dir".to_owned(), "--server-session".to_owned()];
    assert(texts(flags@) =~= backup_flags());
    let vals = scan_options(args, &flags)?;
    proof { reveal_strlit(""); }
    let world_dir = value_of(&vals, 0, "");
    let backup_dir = value_of(&vals, 1, "");
    let server_session = value_of(&vals, 2, "");
    if world_dir.as_str().unicode_len() == 0 {
        return Err(ConfigError::MissingRequired("--world-dir".to_owned()));
    }
    if backup_dir.as_str().unicode_len() == 0 {
        return Err(ConfigError::MissingRequired("--backup-dir".to_owned()));
    }
    Ok(BackupOptions { world_dir, backup_dir, server_session })
}

/// What a restore run is told.
#[derive(Clone, Debug)]
pub struct RestoreOptions {
    /// A generation directory, or an archive of one.
    pub backup_source: String,
    /// Where the generation's entries go.
    pub restore_dir: String,
}

pub open spec fn restore_flags() -> Seq<Seq<char>> {
    seq!["--backup-source"@, "--restore-dir"@]
}

/// Reads the arguments of `restore`: `--backup-source` and `--restore-dir`
/// are needed and may not be empty.
pub fn parse_restore_args(args: &Vec<String>) -> (r: Result<RestoreOptions, ConfigError>)
    ensures
        scan_all(texts(args@), restore_flags()) matches Err(f) ==> (r matches Err(e) && e.fault() == f),
        scan_all(texts(args@), restore_flags()) matches Ok(v) ==> {
            let source = value_or(v, 0, Seq::empty());
            let target = value_or(v, 1, Seq::empty());
            &&& source.len() == 0 ==> (r matches Err(e) && e.fault()
                == ConfigFault::MissingRequired("--backup-source"@))
            &&& source.len() > 0 && target.len() == 0 ==> (r matches Err(e) && e.fault()
                == ConfigFault::MissingRequired("--restore-dir"@))
            &&& source.len() > 0 && target.len() > 0 ==> (r matches Ok(o) && o.backup_source@ == source
                && o.restore_dir@ == target)
        },
{
    let flags = vec!["--backup-source".to_owned(), "--restore-dir".to_owned()];
    assert(texts(flags@) =~= restore_flags());
    let vals = scan_options(args, &flags)?;
    proof { reveal_strlit(""); }
    let backup_source = value_of(&vals, 0, "");
    let restore_dir = value_of(&vals, 1, "");
    if backup_source.as_str().unicode_len() == 0 {
        return Err(ConfigError::MissingRequired("--backup-source".to_owned()));
    }
    if restore_dir.as_str().unicode_len() == 0 {
        return Err(ConfigError::MissingRequired("--restore-dir".to_owned()));
    }
    Ok(RestoreOptions { backup_source, restore_dir })
}

/// Days that a generation is kept where no valid `--retention-days` is given.
pub const DEFAULT_RETENTION_DAYS: u64 = 7;

/// The value of a decimal digit character.
pub open spec fn digit_value(c: char) -> nat {
    ((c as u32) - ('0' as u32)) as nat
}

pub open spec fn is_digit(c: char) -> bool {
    '0' <= c && c <= '9'
}

/// The number that a string of decimal digits writes.
pub open spec fn decimal_value(s: Seq<char>) -> nat
    decreases s.len(),
{
    if s.len() == 0 {
        0
    } else {
        decimal_value(s.drop_last()) * 10 + digit_value(s.last())
    }
}

/// A count of days as written: one or more decimal digits, of a value that fits
/// in 64 bits.
pub open spec fn days_text(s: Seq<char>) -> Option<u64> {
    if s.len() > 0 && (forall|i: int| 0 <= i < s.len() ==> is_digit(#[trigger] s[i])) && decimal_value(s)
        <= u64::MAX {
        Some(decimal_value(s) as u64)
    } else {
        None
    }
}

/// Reads a count of days written in decimal digits; anything else, an empty
/// text, a sign or a value past 64 bits, is no count.
pub fn parse_days(s: &String) -> (r: Option<u64>)
    ensures
        r == days_text(s@),
{
    let t = s.as_str();
    let n = t.unicode_len();
    if n == 0 {
        return None;
    }
    let mut v: u64 = 0;
    let mut i: usize = 0;
    while i < n
        invariant
            t@ == s@,
            n == s@.len(),
            i <= n,
            forall|k: int| 0 <= k < i ==> is_digit(#[trigger] s@[k]),
            v == decimal_value(s@.take(i as int)),
        decreases n - i,
    {
        let c = t.get_char(i);
        assert(s@.take(i + 1).drop_last() =~= s@.take(i as int));
        if !('0' <= c && c <= '9') {
            return None;
        }
        let d = (c as u32 - '0' as u32) as u64;
        assert(s@.take(i + 1).last() == c);
        assert(digit_value(c) == d);
        if v > (u64::MAX - d) / 10 {
            proof {
                assert(decimal_value(s@.take(i + 1)) > u64::MAX) by (nonlinear_arith)
                    requires
                        v > (u64::MAX - d) / 10,
                        decimal_value(s@.take(i + 1)) == v * 10 + d,
                ;
                lemma_decimal_prefix_grows(s@, i as int + 1, n as int);
                assert(s@.take(n as int) =~= s@);
            }
            return None;
        }
        assert(v * 10 + d <= u64::MAX) by (nonlinear_arith)
            requires
                v <= (u64::MAX - d) / 10,
                d < 10,
        ;
        v = v * 10 + d;
        i = i + 1;
    }
    assert(s@.take(n as int) =~= s@);
    Some(v)
}

proof fn lemma_decimal_prefix_grows(s: Seq<char>, i: int, j: int)
    requires
        0 <= i <= j <= s.len(),
    ensures
        decimal_value(s.take(i)) <= decimal_value(s.take(j)),
    decreases j - i,
{
    if i < j {
        lemma_decimal_prefix_grows(s, i, j - 1);
        assert(s.take(j).drop_last() =~= s.take(j - 1));
    }
}

/// The retention period that the value of `--retention-days` gives.
pub open spec fn retention_of(t: Option<Seq<char>>) -> u64 {
    match t {
        Some(t) => match days_text(t) {
            Some(d) => d,
            None => DEFAULT_RETENTION_DAYS,
        },
        None => DEFAULT_RETENTION_DAYS,
    }
}

/// What a purge run is told.
#[derive(Clone, Debug)]
pub struct PurgeOptions {
    /// The backup root, one generation per subdirectory.
    pub backup_dir: String,
    /// Generations last modified longer ago than this many days are removed.
    pub retention_days: u64,
}

pub open spec fn purge_flags() -> Seq<Seq<char>> {
    seq!["--backup-dir"@, "--retention-days"@]
}

/// Reads the arguments of `purge`: `--backup-dir` is needed and may not be
/// empty; `--retention-days` defaults to seven, and so does a value that is
/// not a count of days.
pub fn parse_purge_args(args: &Vec<String>) -> (r: Result<PurgeOptions, ConfigError>)
    ensures
        scan_all(texts(args@), purge_flags()) matches Err(f) ==> (r matches Err(e) && e.fault() == f),
        scan_all(texts(args@), purge_flags()) matches Ok(v) ==> {
            let dir = value_or(v, 0, Seq::empty());
            &&& dir.len() == 0 ==> (r matches Err(e) && e.fault() == ConfigFault::MissingRequired("--backup-dir"@))
            &&& dir.len() > 0 ==> (r matches Ok(o) && o.backup_dir@ == dir && o.retention_days == retention_of(v[1]))
        },
{
    let flags = vec!["--backup-dir".to_owned(), "--retention-days".to_owned()];
    assert(texts(flags@) =~= purge_flags());
    let vals = scan_options(args, &flags)?;
    proof { reveal_strlit(""); }
    let backup_dir = value_of(&vals, 0, "");
    let retention_days = match &vals[1] {
        Some(t) => match parse_days(t) {
            Some(d) => d,
            None => DEFAULT_RETENTION_DAYS,
        },
        None => DEFAULT_RETENTION_DAYS,
    };
    if backup_dir.as_str().unicode_len() == 0 {
        return Err(ConfigError::MissingRequired("--backup-dir".to_owned()));
    }
    Ok(PurgeOptions { backup_dir, retention_days })
}

/// What an offload run is told.
#[derive(Clone, Debug)]
pub struct SyncOptions {
    /// The directory whose subdirectories are backup roots.
    pub root_dir: String,
    /// Where the transport collaborator sends each archive.
    pub remote_path: String,
}

pub open spec fn sync_flags() -> Seq<Seq<char>> {
    seq!["--root-dir"@, "--remote-path"@]
}

/// Reads the arguments of `synctogdrive`: `--root-dir` is needed and may not be
/// empty; `--remote-path` defaults to `gdrive:`.
pub fn parse_sync_args(args: &Vec<String>) -> (r: Result<SyncOptions, ConfigError>)
    ensures
        scan_all(texts(args@), sync_flags()) matches Err(f) ==> (r matches Err(e) && e.fault() == f),
        scan_all(texts(args@), sync_flags()) matches Ok(v) ==> {
            let dir = value_or(v, 0, Seq::empty());
            &&& dir.len() == 0 ==> (r matches Err(e) && e.fault() == ConfigFault::MissingRequired("--root-dir"@))
            &&& dir.len() > 0 ==> (r matches Ok(o) && o.root_dir@ == dir && o.remote_path@ == value_or(
                v,
                1,
                "gdrive:"@,
            ))
        },
{
    let flags = vec!["--root-dir".to_owned(), "--remote-path".to_owned()];
    assert(texts(flags@) =~= sync_flags());
    let vals = scan_options(args, &flags)?;
    proof { reveal_strlit(""); }
    let root_dir = value_of(&vals, 0, "");
    let remote_path = value_of(&vals, 1, "gdrive:");
    if root_dir.as_str().unicode_len() == 0 {
        return Err(ConfigError::MissingRequired("--root-dir".to_owned()));
    }
    Ok(SyncOptions { root_dir, remote_path })
}

} // verus!
