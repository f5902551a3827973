pub mod topic;
