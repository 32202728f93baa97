//! The SQL statements of the index database.
use vstd::prelude::*;

verus! {

/// Turns on foreign key checks for a connection.
pub const ENABLE_FOREIGN_KEYS_QUERY: &'static str = "PRAGMA foreign_keys = ON;";

/// Creates the table of file types.
pub const CREATE_FILE_TYPES_TABLE_QUERY: &'static str = "CREATE TABLE file_types (\n        id INTEGER PRIMARY KEY,\n        name TEXT NOT NULL UNIQUE\n    );";

/// Creates the table of files.
pub const CREATE_FILES_TABLE_QUERY: &'static str = "CREATE TABLE files (\n        id INTEGER PRIMARY KEY,\n        path TEXT NOT NULL UNIQUE,\n        type_id INTEGER,\n        FOREIGN KEY(type_id) REFERENCES file_types(id) ON DELETE RESTRICT\n    );";

/// Creates the full-text table of tokens.
pub const CREATE_TOKENS_TABLE_QUERY: &'static str = "CREATE VIRTUAL TABLE tokens\n    USING fts5(\n        content,\n        file_id UNINDEXED,\n        tokenize = 'trigram'\n    );";

/// Records a file type unless it is known.
pub const INSERT_FILE_TYPES_QUERY: &'static str = "INSERT INTO file_types (name)\n    VALUES (?)\n    ON CONFLICT(name) DO NOTHING;";

/// Records a file unless it is known.
pub const INSERT_FILE_QUERY: &'static str = "INSERT INTO files (path, type_id)\n    VALUES (?, ?)\n    ON CONFLICT DO NOTHING;";

/// Records the tokens of a file.
pub const INSERT_TOKENS_QUERY: &'static str = "INSERT INTO tokens (content, file_id)\n    VALUES (?, ?);";

/// Lists the file types with their identifiers.
pub const SELECT_FILE_TYPE_IDS_QUERY: &'static str = "SELECT name, id FROM file_types;";

/// Lists the paths of the files in the index.
pub const SELECT_FILE_PATHS_QUERY: &'static str = "SELECT path FROM files;";

/// Lists the token rows of all files.
pub const SELECT_ALL_TOKENS_QUERY: &'static str = "SELECT content FROM tokens;";

/// Finds the path of a file by identifier.
pub const SELECT_PATH_FROM_ID_QUERY: &'static str = "SELECT path FROM files WHERE id = ?;";

/// The query that finds the files whose tokens match an expression; `{}`
/// stands for an optional file type condition.
pub const SEARCH_FILES_QUERY: &'static str = "SELECT f.id, f.path, f.type_id, t.name\n    FROM tokens\n    JOIN files f ON f.id = tokens.file_id\n    LEFT JOIN file_types t\n    ON f.type_id = t.id\n    WHERE tokens MATCH ?{}\n    ORDER BY RANK;";

/// The query that finds file types by name; `{}` stands for the placeholders.
pub const SELECT_FILE_TYPES_BY_NAMES_QUERY: &'static str = "SELECT * FROM file_types WHERE name IN ({});";

} // verus!
