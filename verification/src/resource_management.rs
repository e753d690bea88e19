//! Resources with owners: a file handle, a connection pool and a box that
//! dereferences to its content.  Counting the opened files and reporting
//! when a resource is dropped are done by the program around it.

use vstd::prelude::*;
use vstd::string::*;

verus! {

/// A handle on a (simulated) file.
#[derive(Debug)]
pub struct FileGuard {
    pub name: String,
    pub handle_id: u64,
    pub creation_order: u64,
}

impl FileGuard {
    /// The handle of the file `name`, opened as the `order`-th file: its
    /// handle id is `order * 1000 + 42`.
    pub fn open(name: &str, order: u64) -> (g: FileGuard)
        requires
            order * 1000 + 42 <= u64::MAX,
        ensures
            g.name@ == name@,
            g.creation_order == order,
            g.handle_id == order * 1000 + 42,
    {
        FileGuard { name: String::from_str(name), handle_id: order * 1000 + 42, creation_order: order }
    }

    /// A (simulated) line read from the file.
    pub fn read_line(&self) -> (s: String)
        ensures
            s@ == "[模拟读取] 文件 "@ + self.name@ + " 中的一行数据..."@,
    {
        let mut s = String::from_str("[模拟读取] 文件 ");
        s.append(self.name.as_str());
        s.append(" 中的一行数据...");
        s
    }
}

/// A pool of database connections.
pub struct ConnectionPool {
    pub url: String,
    pub active: bool,
}

/// The result text of a query on the pool at `url`.
pub open spec fn query_result(url: Seq<char>) -> Seq<char> {
    "查询结果: [{id: 1, name: \"Alice\"}, {id: 2, name: \"Bob\"}] (来源: "@ + url + ")"@
}

impl ConnectionPool {
    /// An active pool for `url`.
    pub fn connect(url: &str) -> (p: ConnectionPool)
        ensures
            p.url@ == url@,
            p.active,
    {
        ConnectionPool { url: String::from_str(url), active: true }
    }

    /// Runs a query: the (simulated) rows, or an error when the pool is
    /// closed.
    pub fn query(&self, sql: &str) -> (r: Result<String, String>)
        ensures
            self.active ==> (r matches Ok(s) && s@ == query_result(self.url@)),
            !self.active ==> (r matches Err(m) && m@ == "连接池已关闭，无法执行查询"@),
    {
        if !self.active {
            return Err(String::from_str("连接池已关闭，无法执行查询"));
        }
        let mut s = String::from_str("查询结果: [{id: 1, name: \"Alice\"}, {id: 2, name: \"Bob\"}] (来源: ");
        s.append(self.url.as_str());
        s.append(")");
        Ok(s)
    }

    /// Whether the pool is open.
    pub fn is_active(&self) -> (b: bool)
        ensures
            b == self.active,
    {
        self.active
    }

    /// Closes the pool.
    pub fn close(&mut self)
        ensures
            !final(self).active,
            final(self).url@ == old(self).url@,
    {
        self.active = false;
    }
}

/// A box of one value that dereferences to it.
pub struct MyBox<T>(pub T);

impl<T> MyBox<T> {
    /// A box holding `value`.
    pub fn new(value: T) -> (b: MyBox<T>)
        ensures
            b.0 == value,
    {
        MyBox(value)
    }
}

impl<T> std::ops::Deref for MyBox<T> {
    type Target = T;

    fn deref(&self) -> (r: &T)
        ensures
            *r == self.0,
    {
        &self.0
    }
}

} // verus!
