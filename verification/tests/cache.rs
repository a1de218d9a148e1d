/// Basic in-memory cache backed by SQLite.
///
/// This test is based on Chapter 9 of the book "Property-Based Testing with PropEr", by Fred Hebert
///
/// * Values can be read by searching for their key
/// * The cache can be emptied on demand
/// * The cache can be configured with a maximum number of iterms to hold in memory
/// * Once the maximal size is reached, the oldest written value is replaced
/// * If an item is overwritten, even with a changed value, the cache entry remains in the same position
use std::collections::HashMap;

use proptest::arbitrary::any;
use proptest::strategy::{BoxedStrategy, Just, Strategy, Union};
use proptest_stateful::{
    execute_plan, Config, Error, StateMachine, SystemUnderTest, TestError,
};
use rusqlite::{Connection, OptionalExtension};

struct Cache {
    conn: Connection,
    size: usize,
    evict: &'static str,
}

impl Cache {
    pub fn new(size: usize) -> rusqlite::Result<Cache> {
        Cache::evicting(size, "delete from cache where id = (select min(id) from cache)")
    }

    /// A cache that makes room with the given statement.
    fn evicting(size: usize, evict: &'static str) -> rusqlite::Result<Cache> {
        let conn = Connection::open_in_memory()?;

        conn.execute(
            "create table cache (
                    id             integer primary key,
                    key            integer unique,
                    val            integer
                    )",
            [],
        )?;

        Ok(Cache { conn, size, evict })
    }

    pub fn get(&self, key: isize) -> rusqlite::Result<Option<isize>> {
        self.conn
            .query_row("select val from cache where key = ?", [key], |row| {
                row.get(0)
            })
            .optional()
    }

    pub fn set(&mut self, key: isize, val: isize) -> rusqlite::Result<()> {
        let tx = self.conn.transaction()?;
        let params = &[(":key", &key), (":val", &val)];
        let _ = match tx
            .query_row("select val from cache where key = ?", [key], |row| {
                row.get::<_, isize>(0)
            })
            .optional()?
        {
            Some(_) => {
                tx.execute("update cache set val = :val where key = :key", params)?;
            }
            None => {
                if let Some(num_entries) = tx
                    .query_row("select count(*) from cache", [], |row| {
                        row.get::<_, isize>(0)
                    })
                    .optional()?
                {
                    if num_entries as usize == self.size {
                        tx.execute(self.evict, [])?;
                    }
                    tx.execute("insert into cache (key, val) values (:key, :val)", params)?;
                }
            }
        };

        tx.commit()
    }

    pub fn flush(&mut self) -> rusqlite::Result<()> {
        self.conn.execute("delete from cache", [])?;
        Ok(())
    }
}

#[derive(Debug, Clone)]
enum CacheCommand {
    Get { key: isize },
    Store { key: isize, value: isize },
    Flush,
}

#[derive(Debug, PartialEq)]
enum CommandResult {
    Found(isize),
    Missing,
}

impl SystemUnderTest<CacheCommand, CommandResult> for Cache {
    fn run(&mut self, cmd: &CacheCommand) -> Result<CommandResult, Error> {
        match cmd {
            &CacheCommand::Get { key } => {
                let v = self
                    .get(key)
                    .map_err(|e| Error::new_system_execution_error(e.to_string()))?;
                match v {
                    Some(v) => Ok(CommandResult::Found(v)),
                    None => Ok(CommandResult::Missing),
                }
            }
            &CacheCommand::Store { key, value } => {
                self.set(key, value)
                    .map_err(|e| Error::new_system_execution_error(e.to_string()))?;
                Ok(CommandResult::Missing)
            }
            &CacheCommand::Flush => {
                self.flush()
                    .map_err(|e| Error::new_system_execution_error(e.to_string()))?;
                Ok(CommandResult::Missing)
            }
        }
    }
}

#[derive(Clone, Debug)]
struct Entry {
    index: usize,
    val: isize,
}

#[derive(Clone, Debug)]
struct CacheModel {
    entries: HashMap<isize, Entry>,
    max_num_entries: usize,
    min_index: usize,
    max_index: usize,
}

impl CacheModel {
    fn new(max_num_entries: usize) -> CacheModel {
        CacheModel {
            entries: HashMap::new(),
            max_num_entries,
            min_index: 0,
            max_index: 0,
        }
    }

    fn key(&self) -> impl Strategy<Value = isize> {
        Union::new(vec![
            (1isize..(self.max_num_entries as isize)).boxed(),
            any::<isize>().boxed(),
        ])
    }

    fn val() -> impl Strategy<Value = isize> {
        any::<isize>()
    }
}

impl StateMachine for CacheModel {
    type Command = CacheCommand;
    type CommandResult = CommandResult;

    fn reset(&mut self) {
        self.entries.clear();
        self.min_index = 0;
        self.max_index = 0;
    }

    fn commands(&self) -> Vec<(usize, BoxedStrategy<CacheCommand>)> {
        let mut options = vec![
            (
                1,
                self.key()
                    .prop_map(|k| CacheCommand::Get { key: k })
                    .boxed(),
            ),
            (
                3,
                (self.key(), CacheModel::val())
                    .prop_map(|(k, v)| CacheCommand::Store { key: k, value: v })
                    .boxed(),
            ),
        ];
        if !self.entries.is_empty() {
            options.push((1, Just(CacheCommand::Flush).boxed()));
        }
        options
    }

    fn postcondition(&self, cmd: &CacheCommand, res: &CommandResult) -> Result<(), Error> {
        if let CacheCommand::Get { key } = cmd {
            match self.entries.get(&key) {
                Some(Entry { val, .. }) => {
                    if res != &CommandResult::Found(*val) {
                        return Result::Err(Error::new_postcondition_error(
                            format!("{:?}", cmd),
                            format!("{:?}", CommandResult::Found(*val)),
                            format!("{:?}", *res),
                        ));
                    }
                }
                None => {
                    if res != &CommandResult::Missing {
                        return Result::Err(Error::new_postcondition_error(
                            format!("{:?}", cmd),
                            format!("{:?}", CommandResult::Missing),
                            format!("{:?}", *res),
                        ));
                    }
                }
            }
        }
        Ok(())
    }

    fn next_state(&mut self, cmd: &CacheCommand) {
        match cmd {
            &CacheCommand::Get { key: _ } => {}
            &CacheCommand::Store { key, value } => {
                if let Some(entry) = self.entries.get_mut(&key) {
                    entry.val = value;
                } else {
                    if self.entries.len() == self.max_num_entries {
                        let key_to_delete = self
                            .entries
                            .iter()
                            .filter(|&(_, v)| v.index == self.min_index)
                            .map(|(k, _)| *k)
                            .collect::<Vec<isize>>()[0];
                        self.entries.remove(&key_to_delete);
                        self.min_index += 1;
                    }
                    self.entries.insert(
                        key,
                        Entry {
                            index: self.max_index,
                            val: value,
                        },
                    );
                    self.max_index += 1;
                }
            }
            &CacheCommand::Flush => {
                self.min_index = 0;
                self.max_index = 0;
                self.entries.clear();
            }
        }
    }
}

#[test]
fn basic_command_execution() {
    const MAX_CACHE_SIZE: usize = 10;
    const MAX_COMMAND_SEQUENCE_SIZE: usize = 100;

    let config = Config {
        max_sequence_size: MAX_COMMAND_SEQUENCE_SIZE,
        max_shrink_iters: 100,
        ..Config::default()
    };
    let outcome = execute_plan(config, CacheModel::new(MAX_CACHE_SIZE), || {
        Box::new(Cache::new(MAX_CACHE_SIZE).expect("Could not construct Cache"))
    });
    println!("{:?}", outcome);
}

#[test]
fn a_cache_that_keeps_to_the_model_passes() {
    let config = Config {
        max_sequence_size: 60,
        cases: 100,
        seed: Some([41; 32]),
        ..Config::default()
    };
    let outcome = execute_plan(config, CacheModel::new(4), || {
        Box::new(Cache::new(4).expect("Could not construct Cache"))
    });
    assert!(outcome.is_ok(), "{:?}", outcome);
}

#[test]
fn a_cache_that_drops_the_newest_entry_is_caught() {
    let forgetful = || -> Box<dyn SystemUnderTest<CacheCommand, CommandResult>> {
        Box::new(
            Cache::evicting(3, "delete from cache where id = (select max(id) from cache)")
                .expect("Could not construct Cache"),
        )
    };
    let config = Config {
        min_sequence_size: 20,
        max_sequence_size: 60,
        max_shrink_iters: 500,
        seed: Some([42; 32]),
        ..Config::default()
    };
    match execute_plan(config, CacheModel::new(3), forgetful) {
        Err(TestError::Fail(error, mut sequence)) => {
            assert!(matches!(error, Error::Postcondition { .. }));
            assert!(1 <= sequence.len() && sequence.len() <= 60);
            // Nothing less than filling the cache, one more entry and a
            // look at what should have gone or stayed shows the fault.
            assert!(sequence.len() >= 5);
            let stores = sequence
                .commands()
                .iter()
                .filter(|c| matches!(c, CacheCommand::Store { .. }))
                .count();
            assert!(stores >= 4);
            let mut cache = forgetful();
            assert_eq!(sequence.run(&mut cache), Err(error));
        }
        other => panic!("expected a failing sequence, got {:?}", other),
    }
}
