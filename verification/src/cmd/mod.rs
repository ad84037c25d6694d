pub mod amend;
pub mod branch;
pub mod checkout;
pub mod commit;
pub mod delete;
pub mod init;
pub mod list;
pub mod log;
pub mod pr_edit;
pub mod restack;
pub mod skill;
pub mod status;
