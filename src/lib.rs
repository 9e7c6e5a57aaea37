//! Decision logic of a backup orchestrator for a live server's data directory:
//! which generation is the latest, which entries of a new generation are hard
//! links and which are copies, which generations retention removes, how
//! generations and archives are named, and how the command line is read.
//! Everything that touches the file system or other processes is left to the
//! caller, which hands in listings and carries out the plans returned.
mod archive;
mod clock;
mod locator;
mod options;
mod order;
mod retention;
mod snapshot;

pub use archive::{archive_members, archive_path, is_archive, subdirectories};
pub use clock::{current_time, format_clock, generation_name, new_generation_name};
pub use locator::{latest_generation, DirEntry};
pub use options::{
    parse_backup_args, parse_days, parse_purge_args, parse_restore_args, parse_sync_args, scan_options,
    BackupOptions, ConfigError, PurgeOptions, RestoreOptions, SyncOptions, DEFAULT_RETENTION_DAYS,
};
pub use order::name_le_exec;
pub use retention::{purge, SECS_PER_DAY};
pub use snapshot::{plan_snapshot, EntryAction};
