//! The todo items of the service and the requests that create, change and
//! list them.
use vstd::prelude::*;

use crate::sources::{char_count_within, now_millis, random_record_id, is_uuid_text, uuid_text};

verus! {

/// The fewest characters a todo's text may hold.
pub const MIN_DATA_CHARS: u64 = 1;

/// The most characters a todo's text may hold.
pub const MAX_DATA_CHARS: u64 = 1000;

/// The page a todo listing shows when none is asked for.
pub const DEFAULT_PAGE: u32 = 0;

/// The number of todos a listing shows when no limit is asked for.
pub const DEFAULT_LIMIT: u32 = 10;

/// The most todos a listing shows, whatever limit is asked for.
pub const MAX_LIMIT: u32 = 50;

/// A todo item. Times are milliseconds since the Unix epoch.
pub struct Todo {
    pub id: String,
    pub data: String,
    pub is_complete: bool,
    pub created_at: i64,
    pub updated_at: i64,
}

/// A request to create a todo.
pub struct CreateTodoRequest {
    pub data: String,
}

/// A request to replace a todo's text and completion state.
pub struct UpdateTodoRequest {
    pub data: String,
    pub is_complete: bool,
}

/// The text of one todo.
pub struct GetTodoResponse {
    pub data: String,
}

/// A page of todos and its size.
pub struct GetTodosResponse {
    pub todos: Vec<Todo>,
    pub total: usize,
}

/// The paging parameters of a todo listing, each optional.
pub struct GetTodosQuery {
    pub page: Option<u32>,
    pub limit: Option<u32>,
}

/// A todo's text is acceptable: between `MIN_DATA_CHARS` and `MAX_DATA_CHARS`
/// characters.
pub open spec fn valid_data(data: Seq<char>) -> bool {
    MIN_DATA_CHARS <= data.len() <= MAX_DATA_CHARS
}

impl CreateTodoRequest {
    /// Whether the request's text is acceptable.
    pub fn validate(&self) -> (r: bool)
        ensures
            r == valid_data(self.data@),
    {
        char_count_within(&self.data, MIN_DATA_CHARS, MAX_DATA_CHARS)
    }
}

impl UpdateTodoRequest {
    /// Whether the request's text is acceptable.
    pub fn validate(&self) -> (r: bool)
        ensures
            r == valid_data(self.data@),
    {
        char_count_within(&self.data, MIN_DATA_CHARS, MAX_DATA_CHARS)
    }
}

impl GetTodosQuery {
    /// The page asked for, `DEFAULT_PAGE` if none was.
    pub fn page_or_default(&self) -> (r: u32)
        ensures
            r == match self.page {
                Some(p) => p,
                None => DEFAULT_PAGE,
            },
    {
        match self.page {
            Some(p) => p,
            None => DEFAULT_PAGE,
        }
    }

    /// The limit asked for, `DEFAULT_LIMIT` if none was, and at most `MAX_LIMIT`.
    pub fn effective_limit(&self) -> (r: u32)
        ensures
            r == match self.limit {
                Some(l) => if l < MAX_LIMIT {
                    l
                } else {
                    MAX_LIMIT
                },
                None => DEFAULT_LIMIT,
            },
    {
        match self.limit {
            Some(l) => if l < MAX_LIMIT {
                l
            } else {
                MAX_LIMIT
            },
            None => DEFAULT_LIMIT,
        }
    }
}

impl Todo {
    /// The todo that `request` creates at time `now` under identifier `id`:
    /// not complete, created and updated at `now`.
    pub fn from_request(id: String, request: CreateTodoRequest, now: i64) -> (t: Todo)
        ensures
            t.id == id,
            t.data == request.data,
            !t.is_complete,
            t.created_at == now,
            t.updated_at == now,
    {
        Todo { id, data: request.data, is_complete: false, created_at: now, updated_at: now }
    }

    /// A new todo from `request`, under a fresh random identifier written in
    /// the hyphenated UUID form (see `is_uuid_text`), created at the current time.
    pub fn create(request: CreateTodoRequest) -> (t: Todo)
        ensures
            t.data == request.data,
            !t.is_complete,
            t.created_at == t.updated_at,
            t.id@.len() == 36,
            exists|bits: u128| is_uuid_text(t.id@, bits),
    {
        let bits = random_record_id();
        let id = uuid_text(bits);
        let now = now_millis();
        let t = Todo::from_request(id, request, now);
        proof {
            assert(is_uuid_text(t.id@, bits));
        }
        t
    }

    /// Replaces the text and completion state with those of `request`, and
    /// the update time with `now`; the identifier and creation time stay.
    pub fn apply_update(&mut self, request: UpdateTodoRequest, now: i64)
        ensures
            final(self).id == old(self).id,
            final(self).created_at == old(self).created_at,
            final(self).data == request.data,
            final(self).is_complete == request.is_complete,
            final(self).updated_at == now,
    {
        self.data = request.data;
        self.is_complete = request.is_complete;
        self.updated_at = now;
    }

    /// The text of this todo.
    pub fn response(&self) -> (r: GetTodoResponse)
        ensures
            r.data == self.data,
    {
        GetTodoResponse { data: self.data.clone() }
    }
}

impl GetTodosResponse {
    /// A listing response for `todos`; `total` is the number of todos in it.
    pub fn new(todos: Vec<Todo>) -> (r: GetTodosResponse)
        ensures
            r.todos@ == todos@,
            r.total == todos@.len(),
    {
        let total = todos.len();
        GetTodosResponse { todos, total }
    }
}

} // verus!
